use deck_creator::card::{parse_card, Card};
use deck_creator::command::{handle_command, setup_cmds, Action, Command, CommandRegistry};
use deck_creator::error::DeckError;
use deck_creator::picker::{
    class_verdict, normalize_class, pick_class, pick_class_no_err, ClassPicker, ClassVerdict,
};
use deck_creator::repository::{is_card_path_exec, load_cards, SourceRecord};

fn card(json: &str) -> Card {
    parse_card(json).unwrap()
}

fn cards() -> Vec<Card> {
    vec![
        card("{\"name\": \"Wisp\", \"id\": 1, \"class\": \"Neutral\"}"),
        card("{\"name\": \"Fireball\", \"id\": 22, \"class\": \"Mage\"}"),
    ]
}

fn lines(v: &[&str]) -> Vec<String> {
    v.iter().map(|s| s.to_string()).collect()
}

#[test]
fn add_then_rem_wisp() {
    let mut reg = CommandRegistry::new();
    reg.register("add".to_string(), Command::Add);
    reg.register("rem".to_string(), Command::Rem);
    let cards = cards();
    let mut deck: Vec<Card> = vec![];
    assert_eq!(reg.dispatch("add Wisp", &mut deck, &cards).unwrap(), Action::Continue);
    assert_eq!(deck.len(), 1);
    assert_eq!(deck[0].name.as_deref(), Some("Wisp"));
    assert_eq!(reg.dispatch("rem Wisp", &mut deck, &cards).unwrap(), Action::Continue);
    assert!(deck.is_empty());
}

#[test]
fn add_unknown_card_leaves_deck() {
    let reg = setup_cmds();
    let cards = cards();
    let mut deck: Vec<Card> = vec![cards[1].duplicate()];
    let r = reg.dispatch("add Nonexistent", &mut deck, &cards);
    assert!(matches!(r, Err(DeckError::CardNotFound)));
    assert_eq!(deck.len(), 1);
    assert_eq!(deck[0].name.as_deref(), Some("Fireball"));
}

#[test]
fn rem_card_not_in_deck_fails() {
    let reg = setup_cmds();
    let cards = cards();
    let mut deck: Vec<Card> = vec![];
    assert!(matches!(reg.dispatch("rem Wisp", &mut deck, &cards), Err(DeckError::CardNotFound)));
}

#[test]
fn rem_swaps_with_last() {
    let reg = setup_cmds();
    let cards = vec![
        card("{\"name\": \"A\", \"id\": 1}"),
        card("{\"name\": \"B\", \"id\": 2}"),
        card("{\"name\": \"C\", \"id\": 3}"),
    ];
    let mut deck: Vec<Card> = cards.iter().map(|c| c.duplicate()).collect();
    reg.dispatch("rem a", &mut deck, &cards).unwrap();
    let names: Vec<String> = deck.iter().map(|c| c.name.clone().unwrap()).collect();
    assert_eq!(names, vec!["C", "B"]);
}

#[test]
fn unknown_command_fails() {
    let reg = setup_cmds();
    let mut deck: Vec<Card> = vec![];
    assert!(matches!(reg.dispatch("jump 3", &mut deck, &cards()), Err(DeckError::UnknownCommand)));
    assert!(matches!(CommandRegistry::new().dispatch("add Wisp", &mut deck, &cards()), Err(DeckError::UnknownCommand)));
}

#[test]
fn whitespace_run_separates_arguments() {
    let reg = setup_cmds();
    let mut deck: Vec<Card> = vec![];
    reg.dispatch("add \t  Fireball", &mut deck, &cards()).unwrap();
    assert_eq!(deck[0].id, "22");
}

#[test]
fn deck_and_exit_are_actions() {
    let reg = setup_cmds();
    let mut deck: Vec<Card> = vec![];
    assert_eq!(reg.dispatch("deck", &mut deck, &cards()).unwrap(), Action::ShowDeck);
    assert_eq!(reg.dispatch("exit", &mut deck, &cards()).unwrap(), Action::Exit);
    assert!(deck.is_empty());
}

#[test]
fn later_registration_wins() {
    let mut reg = setup_cmds();
    reg.register("add".to_string(), Command::Exit);
    let mut deck: Vec<Card> = vec![];
    assert_eq!(reg.dispatch("add Wisp", &mut deck, &cards()).unwrap(), Action::Exit);
    assert_eq!(reg.lookup(&"rem".to_string()), Some(Command::Rem));
    assert_eq!(reg.lookup(&"nothing".to_string()), None);
}

#[test]
fn card_name_line_adds_the_card() {
    let reg = setup_cmds();
    let mut deck: Vec<Card> = vec![];
    assert_eq!(handle_command(&reg, "fireball", &mut deck, &cards()).unwrap(), Action::Continue);
    assert_eq!(handle_command(&reg, "1", &mut deck, &cards()).unwrap(), Action::Continue);
    let names: Vec<String> = deck.iter().map(|c| c.name.clone().unwrap()).collect();
    assert_eq!(names, vec!["Fireball", "Wisp"]);
    assert_eq!(handle_command(&reg, "deck", &mut deck, &cards()).unwrap(), Action::ShowDeck);
}

#[test]
fn pick_death_knight_with_runes() {
    let classes = lines(&["Death Knight", "Mage"]);
    let sel = pick_class(&classes, &lines(&["death knight", "b", "f", "u"]), false).unwrap();
    assert_eq!(sel.class_name, "Death Knight");
    assert_eq!(sel.runes, "BFU");
}

#[test]
fn pick_plain_class_has_no_runes() {
    let classes = lines(&["Death Knight", "Mage"]);
    let sel = pick_class(&classes, &lines(&["mAGE"]), false).unwrap();
    assert_eq!(sel.class_name, "Mage");
    assert_eq!(sel.runes, "");
}

#[test]
fn pick_errors() {
    let classes = lines(&["Death Knight", "Mage"]);
    assert!(matches!(pick_class(&classes, &lines(&["rogue"]), false), Err(DeckError::InvalidClass)));
    assert!(matches!(pick_class(&classes, &lines(&["death knight", "x"]), false), Err(DeckError::InvalidRune)));
    assert!(matches!(pick_class(&classes, &lines(&["death knight", ""]), false), Err(DeckError::InvalidRune)));
    assert!(matches!(pick_class(&classes, &lines(&["death knight", "b"]), false), Err(DeckError::NoInput)));
    let sel = pick_class(&classes, &lines(&["death knight", "x", "u", "", "Unholy", "frost"]), true).unwrap();
    assert_eq!(sel.runes, "UUF");
}

#[test]
fn pick_no_err_retries() {
    let classes = lines(&["Death Knight", "Mage"]);
    let sel = pick_class_no_err(&classes, &lines(&["rogue", "", "death knight", "q", "B", "b", "u"])).unwrap();
    assert_eq!(sel.class_name, "Death Knight");
    assert_eq!(sel.runes, "BBU");
    assert!(pick_class_no_err(&classes, &lines(&["rogue"])).is_none());
}

#[test]
fn picker_steps() {
    let classes = lines(&["Death Knight"]);
    let mut p = ClassPicker::new(&classes);
    assert!(matches!(p.answer("hunter"), Err(DeckError::InvalidClass)));
    assert!(matches!(p.answer("DEATH KNIGHT"), Ok(None)));
    assert!(matches!(p.answer("f"), Ok(None)));
    assert!(matches!(p.answer("?"), Err(DeckError::InvalidRune)));
    assert!(matches!(p.answer("frost"), Ok(None)));
    let sel = p.answer("Blood").unwrap().unwrap();
    assert_eq!(sel.runes, "FFB");
}

#[test]
fn normalize_each_word() {
    assert_eq!(normalize_class("death knight"), "Death Knight");
    assert_eq!(normalize_class("dEMON  hUNTER"), "Demon  Hunter");
    assert_eq!(normalize_class("death\tknight"), "Death\tKnight");
}

#[test]
fn class_verdict_on_folded_values() {
    let folds = lines(&["death knight", "mage"]);
    assert_eq!(class_verdict(&folds, &"death knight".to_string()), ClassVerdict::RuneBearing);
    assert_eq!(class_verdict(&folds, &"mage".to_string()), ClassVerdict::Plain);
    assert_eq!(class_verdict(&folds, &"Mage".to_string()), ClassVerdict::Unknown);
    assert_eq!(class_verdict(&[], &"mage".to_string()), ClassVerdict::Unknown);
}

#[test]
fn pick_class_with_tab_between_words() {
    let classes = lines(&["Demon Hunter"]);
    assert!(matches!(pick_class(&classes, &lines(&["demon\thunter"]), false), Err(DeckError::InvalidClass)));
    let sel = pick_class(&classes, &lines(&["DEMON HUNTER"]), false).unwrap();
    assert_eq!(sel.class_name, "Demon Hunter");
}

#[test]
fn card_paths() {
    assert!(is_card_path_exec("../cards/Mage/fireball.js"));
    assert!(!is_card_path_exec("../cards/Tests/fireball.js"));
    assert!(!is_card_path_exec("../cards/Examples/a/b.js"));
    assert!(!is_card_path_exec("../cards/Mage/readme.md"));
    assert!(is_card_path_exec("../cards/MyTests/x.js"));
    assert!(!is_card_path_exec("../cards.js/readme"));
}

#[test]
fn repository_skips_tests_dir() {
    let sources = vec![
        SourceRecord {
            path: "../cards/Tests/broken.js".to_string(),
            text: "not a card at all".to_string(),
        },
        SourceRecord {
            path: "../cards/wisp.js".to_string(),
            text: "module.exports = {\n    name: \"Wisp\",\n    id: 1,\n\n    f() {}\n}".to_string(),
        },
    ];
    let loaded = load_cards(&sources).unwrap();
    assert_eq!(loaded.len(), 1);
    assert_eq!(loaded[0].name.as_deref(), Some("Wisp"));
}

#[test]
fn repository_fails_fast() {
    let sources = vec![
        SourceRecord { path: "a.js".to_string(), text: "nothing".to_string() },
        SourceRecord { path: "b.js".to_string(), text: "module.exports = {\n    id: [\n}".to_string() },
    ];
    assert!(matches!(load_cards(&sources), Err(DeckError::MarkerNotFound)));
    let sources = vec![
        SourceRecord { path: "b.js".to_string(), text: "module.exports = {\n    id: [\n}".to_string() },
    ];
    assert!(matches!(load_cards(&sources), Err(DeckError::MalformedRecord(_))));
}

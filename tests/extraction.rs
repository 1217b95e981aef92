use typ2anki::card::{is_card_empty, CardInfo};
use typ2anki::extract::parse_cards_string;
use typ2anki::imports::{get_ankiconf_hash, strip_leading_slashes, typst_import_paths, ImportWalk};

#[test]
fn single_card_is_extracted_with_empty_prelude() {
    let doc = "#card(id:\"x1\", target-deck:\"D\", q:\"foo\", a:\"bar\")";
    let cards = parse_cards_string(doc);
    assert_eq!(cards, vec![format!("\n{}", doc)]);
    assert_eq!(cards[0].trim(), doc);
}

#[test]
fn surrounding_text_is_not_part_of_a_card() {
    let cards = parse_cards_string("intro text  #card(a: (1 + (2)))  trailing");
    assert_eq!(cards, vec!["\n#card(a: (1 + (2)))".to_string()]);
}

#[test]
fn custom_card_keyword_is_recognised() {
    let cards = parse_cards_string("#custom-card(id: \"c\", target-deck: \"K\")");
    assert_eq!(cards, vec!["\n#custom-card(id: \"c\", target-deck: \"K\")".to_string()]);
}

#[test]
fn unterminated_card_is_dropped() {
    assert!(parse_cards_string("#card(id:\"a\", q: [ (x ]").is_empty());
    let cards = parse_cards_string("#card(id:\"a\") #card(id:\"b\"");
    assert_eq!(cards, vec!["\n#card(id:\"a\")".to_string()]);
}

#[test]
fn prelude_accumulates_and_is_never_reset() {
    let doc = "// START\n#let x = 1\n\n\n#card(id:\"a\")\nmid\n#card(id:\"b\")";
    let cards = parse_cards_string(doc);
    assert_eq!(
        cards,
        vec![
            "#let x = 1\n#card(id:\"a\")".to_string(),
            "#let x = 1\nmid\n#card(id:\"b\")".to_string(),
        ]
    );
}

#[test]
fn text_before_the_marker_is_not_prelude() {
    let doc = "#let hidden = 0\n//start\n#let shown = 1\n#card(id:\"a\")";
    let cards = parse_cards_string(doc);
    assert_eq!(cards, vec!["#let shown = 1\n#card(id:\"a\")".to_string()]);
}

#[test]
fn uppercase_unspaced_marker_starts_prelude() {
    let cards = parse_cards_string("//STARThelper\n#card(x)");
    assert_eq!(cards, vec!["helper\n#card(x)".to_string()]);
}

#[test]
fn empty_document_has_no_cards() {
    assert!(parse_cards_string("").is_empty());
    assert!(parse_cards_string("just text, no cards").is_empty());
}

#[test]
fn cards_with_unicode_content_are_extracted() {
    let cards = parse_cards_string("é #card(q: \"√(x)\", a: \"∑\") ü");
    assert_eq!(cards, vec!["\n#card(q: \"√(x)\", a: \"∑\")".to_string()]);
}

#[test]
fn blank_question_and_answer_make_an_empty_card() {
    assert!(is_card_empty("#card(id:\"e\", q: [ ], a: \"  \")"));
    assert!(is_card_empty("#card(q:[], a:\"\")"));
    assert!(!is_card_empty("#card(q: [], a: [x])"));
    assert!(!is_card_empty("#card(q: \"?\", a: [])"));
    assert!(!is_card_empty("#card(id: \"n\")"));
}

#[test]
fn card_fields_are_read() {
    let text = "\n#card(id:\"x1\", target-deck:\"D\", q:\"foo\", a:\"bar\")";
    let c = CardInfo::from_string(0, text, "notes/a.typ".to_string()).unwrap();
    assert_eq!(c.card_id, "x1");
    assert_eq!(c.deck_name, "D");
    assert_eq!(c.content, text);
    assert_eq!(c.source_file, "notes/a.typ");
    assert_eq!(c.content_hash.len(), 32);
    assert!(c.anki_deck_name.is_none());
}

#[test]
fn field_values_allow_white_space_before_the_quote() {
    let c = CardInfo::from_string(3, "#card(id:  \"a b\", target-deck:\n\"Deck::Sub\")", String::new())
        .unwrap();
    assert_eq!(c.card_id, "a b");
    assert_eq!(c.deck_name, "Deck::Sub");
}

#[test]
fn missing_id_is_an_error() {
    let e = CardInfo::from_string(0, "#card(target-deck:\"D\")", String::new());
    assert_eq!(e.err(), Some("Card ID not found".to_string()));
    let e = CardInfo::from_string(0, "#card(id:\"\", target-deck:\"D\")", String::new());
    assert_eq!(e.err(), Some("Card ID not found".to_string()));
}

#[test]
fn missing_deck_is_an_error() {
    let e = CardInfo::from_string(0, "#card(id:\"a\")", String::new());
    assert_eq!(e.err(), Some("Target deck not found".to_string()));
}

#[test]
fn image_paths_name_the_card_and_page() {
    let c = CardInfo::from_string(0, "#card(id:\"x1\", target-deck:\"D\")", String::new()).unwrap();
    assert_eq!(c.image_path(1), "typ-x1-1.png");
    assert_eq!(c.image_path(2), "typ-x1-2.png");
    assert_eq!(c.image_path(120), "typ-x1-120.png");
}

#[test]
fn import_lines_are_found_in_order() {
    let doc = "#import \"a.typ\": *\ntext #import \"no.typ\"\n#import   \"lib/b.typ\"\n#import \"\"\n";
    assert_eq!(typst_import_paths(doc), vec!["a.typ".to_string(), "lib/b.typ".to_string()]);
    assert!(typst_import_paths("no imports here").is_empty());
}

#[test]
fn template_hash_covers_its_imports() {
    let alone = get_ankiconf_hash("#let conf(doc) = doc", &vec![]);
    assert_eq!(alone, typ2anki::fingerprint::hash_string("#let conf(doc) = doc"));
    let with = get_ankiconf_hash("#let conf(doc) = doc", &vec!["x".to_string(), "y".to_string()]);
    assert_eq!(with, typ2anki::fingerprint::hash_string("#let conf(doc) = doc\nx\ny"));
    assert_ne!(alone, with);
}

#[test]
fn card_with_surrounding_white_space_yields_one_record() {
    let card = "#custom-card(id: \"k\", target-deck: \"Deck\", q: [(a) and (b)], a: \"c\")";
    let doc = format!(" \n\t{}\n  \u{a0}", card);
    let cards = parse_cards_string(&doc);
    assert_eq!(cards.len(), 1);
    assert_eq!(cards[0].trim(), doc.trim());
    let info = CardInfo::from_string(0, &cards[0], String::new()).unwrap();
    assert_eq!((info.card_id.as_str(), info.deck_name.as_str()), ("k", "Deck"));
}

#[test]
fn marker_is_case_insensitive() {
    let card = "#card(id:\"a\", target-deck:\"D\")";
    let cards = parse_cards_string(&format!("// Start\nX\n{}", card));
    assert_eq!(cards, vec![format!("X\n{}", card)]);
    let cards = parse_cards_string(&format!("//sTaRt\nY\n{}", card));
    assert_eq!(cards, vec![format!("Y\n{}", card)]);
    let cards = parse_cards_string(&format!("//  start\nZ\n{}", card));
    assert_eq!(cards, vec![format!("\n{}", card)]);
}

#[test]
fn leading_slashes_are_dropped_from_import_paths() {
    assert_eq!(strip_leading_slashes("//lib/a.typ"), "lib/a.typ");
    assert_eq!(strip_leading_slashes("lib/a.typ"), "lib/a.typ");
    assert_eq!(strip_leading_slashes("/"), "");
}

#[test]
fn import_walk_visits_each_file_once_and_sorts() {
    let mut walk = ImportWalk::new(vec!["/b.typ".to_string(), "a.typ".to_string()]);
    assert_eq!(walk.next_path(), Some("b.typ".to_string()));
    assert!(walk.is_new(&"root/b.typ".to_string()));
    walk.record("root/b.typ".to_string(), vec!["a.typ".to_string()]);
    assert_eq!(walk.next_path(), Some("a.typ".to_string()));
    walk.record("root/a.typ".to_string(), vec!["b.typ".to_string()]);
    assert_eq!(walk.next_path(), Some("a.typ".to_string()));
    assert!(!walk.is_new(&"root/a.typ".to_string()));
    assert_eq!(walk.next_path(), Some("b.typ".to_string()));
    assert!(!walk.is_new(&"root/b.typ".to_string()));
    assert_eq!(walk.next_path(), None);
    assert_eq!(walk.finish(), vec!["root/a.typ".to_string(), "root/b.typ".to_string()]);
}

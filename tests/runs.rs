use base64::Engine;
use typ2anki::cache::{CardModificationStatus, CardsCacheManager};
use typ2anki::card::CardInfo;
use typ2anki::config::Config;
use typ2anki::driver::{card_error, BufferStep, CompileBuffer};
use typ2anki::fingerprint::{cache_concat_hashes_padding, hash_string};
use typ2anki::ingest::{duplicate_card_ids, duplicates_abort, parse_cards_from_file_content};
use typ2anki::stats::TypFileStats;

const DOC: &str = "#card(id:\"x1\", target-deck:\"D\", q:\"foo\", a:\"bar\")";

fn config() -> Config {
    Config {
        check_duplicates: true,
        exclude_decks: vec![],
        exclude_files: vec![],
        asked_path: ".".to_string(),
        path: ".".to_string(),
        recompile_on_config_change: None,
        dry_run: false,
        max_card_width: "auto".to_string(),
        skip_cache: false,
        generation_concurrency: 1,
        keep_terminal_open: false,
        is_zip: false,
        config_hash: None,
        output_type: "png".to_string(),
        typst_input: vec![],
    }
}

/// Reads a document with the previous run's cache text and classifies its
/// cards.
fn read_run(doc: &str, cache_text: Option<String>) -> (CardsCacheManager, Vec<CardInfo>, TypFileStats) {
    let cfg = config();
    let mut m = CardsCacheManager::init("template-hash", "config-hash", true, cache_text);
    let mut i: i64 = 0;
    let mut decks = Vec::new();
    let mut cards = Vec::new();
    let parsed = parse_cards_from_file_content(&cfg, &"main.typ".to_string(), doc, &mut m, &mut i, &mut decks, &mut cards);
    let mut stats = parsed.stats;
    for c in cards.iter_mut() {
        c.set_status(&m, cfg.recompile_on_config_change);
        stats.record_status(c.modification_status);
    }
    (m, cards, stats)
}

fn persisted(m: &CardsCacheManager) -> String {
    let bytes = base64::engine::general_purpose::STANDARD.decode(m.save_cache()).unwrap();
    String::from_utf8(bytes).unwrap()
}

#[test]
fn first_run_classifies_new() {
    let (_m, cards, stats) = read_run(DOC, None);
    assert_eq!(cards.len(), 1);
    assert_eq!(cards[0].card_id, "x1");
    assert_eq!(cards[0].deck_name, "D");
    assert_eq!(cards[0].modification_status, CardModificationStatus::New);
    assert_eq!(stats.new_cards, (1, 0));
}

#[test]
fn second_run_is_unchanged_and_skipped() {
    let (m1, _cards, _) = read_run(DOC, None);
    let (_m2, cards, stats) = read_run(DOC, Some(persisted(&m1)));
    assert_eq!(cards[0].modification_status, CardModificationStatus::Unchanged);
    assert_eq!(stats.unchanged_cards, (1, 0));
    assert_eq!(stats.total_errors(), 0);
    let mut buf = CompileBuffer::new();
    let step = buf.next_card(cards[0].modification_status, &cards[0].source_file, "BASE", &cards[0].content);
    assert_eq!(step, BufferStep::Skip);
}

#[test]
fn classification_twice_with_the_same_tables_is_unchanged() {
    let (m1, _, _) = read_run(DOC, None);
    let text = persisted(&m1);
    let (_, first, s1) = read_run(DOC, Some(text.clone()));
    let (_, second, s2) = read_run(DOC, Some(text));
    assert_eq!(first[0].modification_status, CardModificationStatus::Unchanged);
    assert_eq!(second[0].modification_status, CardModificationStatus::Unchanged);
    assert_eq!((s1.total_errors(), s2.total_errors()), (0, 0));
}

#[test]
fn changed_content_is_updated_and_persisted() {
    let (m1, _, _) = read_run(DOC, None);
    let changed = DOC.replace("bar", "baz");
    let (m2, cards, _) = read_run(&changed, Some(persisted(&m1)));
    assert_eq!(cards[0].modification_status, CardModificationStatus::Updated);
    let mut buf = CompileBuffer::new();
    let step = buf.next_card(cards[0].modification_status, &cards[0].source_file, "BASE", &cards[0].content);
    assert!(matches!(step, BufferStep::Compile { reset: true, .. }));
    let saved: serde_json::Value = serde_json::from_str(&persisted(&m2)).unwrap();
    let expected = cache_concat_hashes_padding(&m2.static_hash, &hash_string(&format!("\n{}", changed)));
    assert_eq!(saved["D_x1"], expected.as_str());
}

#[test]
fn failed_upload_is_retried_next_run() {
    let (mut m1, cards, mut stats) = read_run(DOC, None);
    card_error(&mut m1, &mut stats, &cards[0]);
    assert_eq!(stats.new_cards, (1, 1));
    let text = persisted(&m1);
    let saved: serde_json::Value = serde_json::from_str(&text).unwrap();
    assert!(saved.get("D_x1").is_none());
    let (_, again, _) = read_run(DOC, Some(text));
    assert_eq!(again[0].modification_status, CardModificationStatus::New);
}

#[test]
fn duplicate_ids_abort_the_run() {
    let doc = "#card(id:\"dup\", target-deck:\"D1\", q:\"1\", a:\"2\")\n#card(id:\"dup\", target-deck:\"D2\", q:\"3\", a:\"4\")";
    let (_, cards, _) = read_run(doc, None);
    let dups = duplicate_card_ids(&cards);
    assert_eq!(dups, vec![1]);
    assert!(duplicates_abort(&dups, true, false));
    assert!(!duplicates_abort(&dups, true, true));
}

use typ2anki::cache::{CardModificationStatus, CardsCacheManager};
use typ2anki::card::CardInfo;
use typ2anki::config::{generate_card_file_content, Config};
use typ2anki::driver::{apply_outcomes, card_error, page_count_error, BufferStep, CardOutcome, CompileBuffer};
use typ2anki::ingest::{duplicate_card_ids, duplicates_abort, parse_cards_from_file_content};
use typ2anki::schedule::{batch_ranges, effective_concurrency, parse_decimal, parse_generation_concurrency};
use typ2anki::stats::TypFileStats;
use typ2anki::upload::{choose_basic_model, get_basic_model_name, note_action, DeckNameCache, NoteAction};

fn config(max_card_width: &str, output_type: &str, exclude_decks: Vec<&str>) -> Config {
    Config {
        check_duplicates: true,
        exclude_decks: exclude_decks.into_iter().map(|s| s.to_string()).collect(),
        exclude_files: vec![],
        asked_path: ".".to_string(),
        path: ".".to_string(),
        recompile_on_config_change: None,
        dry_run: false,
        max_card_width: max_card_width.to_string(),
        skip_cache: false,
        generation_concurrency: 1,
        keep_terminal_open: false,
        is_zip: false,
        config_hash: None,
        output_type: output_type.to_string(),
        typst_input: vec![],
    }
}

fn card(id: &str, deck: &str, file: &str, status: CardModificationStatus) -> CardInfo {
    let text = format!("#card(id:\"{}\", target-deck:\"{}\", q:\"q\", a:\"a\")", id, deck);
    let mut c = CardInfo::from_string(0, &text, file.to_string()).unwrap();
    c.modification_status = status;
    c
}

/// The preamble as the template text spells it, assembled independently.
fn expected_preamble(ankiconf: &str, width: &str, output_type: &str) -> String {
    let display = if width == "auto" {
        "#let display_with_width(body) = {\n  body\n}".to_string()
    } else {
        format!(
            "#let display_with_width(body) = {{\n  layout(size => {{\n    let (width,) = measure(body)\n    if width > {max} {{\n      width = {max}\n    }} else {{\n      width = auto\n    }}\n    context[\n      #block(width: width,body)\n    ]\n  }})\n}}",
            max = width
        )
    };
    let page = if output_type == "html" {
        "\n".to_string()
    } else {
        "#set page(\n  width: auto,\n  height: auto,\n  margin: 3pt,\n  fill: rgb(255,255,255),\n)\n\n".to_string()
    };
    let cardlet = "#let card(\n      id: \"\",\n      q: \"\",\n      a: \"\",\n      ..args\n    ) = {\n      let args = arguments(..args, type: \"basic\")\n      if args.at(\"type\") == \"basic\" {\n        context[\n          #display_with_width(q)\n          #pagebreak()\n          #display_with_width(a)\n        ]\n      }\n    }\n    #let custom-card = card\n    ";
    format!(
        "#import \"{}\": *\n#show: doc => conf(doc)\n\n{}{}\n\n{}\n\n",
        ankiconf, page, display, cardlet
    )
}

#[test]
fn card_file_for_auto_width_png() {
    let cfg = config("auto", "png", vec![]);
    let got = generate_card_file_content(&cfg, "../ankiconf.typ", "#card(x)");
    assert_eq!(got, format!("{}#card(x)", expected_preamble("../ankiconf.typ", "auto", "png")));
}

#[test]
fn card_file_for_fixed_width_html() {
    let cfg = config("10cm", "html", vec![]);
    let got = generate_card_file_content(&cfg, "ankiconf.typ", "");
    assert_eq!(got, expected_preamble("ankiconf.typ", "10cm", "html"));
    assert!(got.contains("if width > 10cm {\n      width = 10cm\n"));
}

#[test]
fn decks_are_excluded_by_glob() {
    let cfg = config("auto", "png", vec!["Draft*", "Old"]);
    assert!(cfg.is_deck_excluded("Drafts"));
    assert!(cfg.is_deck_excluded("Old"));
    assert!(!cfg.is_deck_excluded("Main"));
    assert!(!config("auto", "png", vec![]).is_deck_excluded("Draft"));
}

#[test]
fn files_are_excluded_by_glob() {
    let mut cfg = config("auto", "png", vec![]);
    cfg.exclude_files = vec!["*/tmp/*".to_string()];
    assert!(cfg.is_file_excluded("notes/tmp/a.typ"));
    assert!(!cfg.is_file_excluded("notes/a.typ"));
}

#[test]
fn image_fields_escape_the_path() {
    let cfg = config("auto", "png", vec![]);
    assert_eq!(cfg.template_front("typ-a&b-1.png"), "<img src=\"typ-a&amp;b-1.png\">");
    assert_eq!(cfg.template_back("typ-\"<x>\"-2.png"), "<img src=\"typ-&quot;&lt;x&gt;&quot;-2.png\">");
}

#[test]
fn config_hash_depends_on_visual_options_only() {
    let mut a = config("auto", "png", vec!["X"]);
    a.compute_hash();
    let mut b = config("auto", "png", vec!["X"]);
    b.dry_run = true;
    b.generation_concurrency = 8;
    b.skip_cache = true;
    b.compute_hash();
    assert_eq!(a.config_hash, b.config_hash);
    assert_eq!(a.config_hash.as_ref().unwrap().len(), 32);
    let mut c = config("12cm", "png", vec!["X"]);
    c.compute_hash();
    assert_ne!(a.config_hash, c.config_hash);
    let mut d = config("auto", "png", vec!["Y"]);
    d.compute_hash();
    assert_ne!(a.config_hash, d.config_hash);
}

#[test]
fn file_content_is_taken_into_the_run() {
    let cfg = config("auto", "png", vec!["Skip*"]);
    let mut m = CardsCacheManager::init("t", "c", true, None);
    let mut i: i64 = 5;
    let mut decks = vec!["D".to_string()];
    let mut cards = Vec::new();
    let doc = "#card(id:\"a\", target-deck:\"D\", q:\"1\", a:\"2\")\n\
               #card(id:\"e\", target-deck:\"D\", q:[], a:\"\")\n\
               #card(target-deck:\"D\", q:\"1\", a:\"2\")\n\
               #card(id:\"s\", target-deck:\"SkipMe\", q:\"1\", a:\"2\")\n\
               #card(id:\"b\", target-deck:\"E\", q:\"3\", a:\"4\")";
    let r = parse_cards_from_file_content(&cfg, &"f.typ".to_string(), doc, &mut m, &mut i, &mut decks, &mut cards);
    assert_eq!(r.stats.total_cards, 2);
    assert_eq!(r.stats.empty_cards, 1);
    assert_eq!(r.stats.skipped_cards, 1);
    assert_eq!(r.parse_errors, 1);
    assert_eq!(i, 7);
    assert_eq!(decks, vec!["D".to_string(), "E".to_string()]);
    assert_eq!(cards.len(), 2);
    assert_eq!(cards[0].card_id, "a");
    assert_eq!(cards[1].card_id, "b");
    assert_eq!(cards[1].source_file, "f.typ");
    assert!(m.new_cache.contains(&"D_a".to_string()));
    assert!(m.new_cache.contains(&"E_b".to_string()));
    assert_eq!(m.new_cache.len(), 2);
}

#[test]
fn duplicate_ids_are_found_after_their_first_use() {
    let cards = vec![
        card("x", "A", "f", CardModificationStatus::New),
        card("y", "A", "f", CardModificationStatus::New),
        card("x", "B", "g", CardModificationStatus::New),
        card("x", "C", "g", CardModificationStatus::New),
    ];
    assert_eq!(duplicate_card_ids(&cards), vec![2, 3]);
    assert!(duplicate_card_ids(&cards[..2].to_vec()).is_empty());
}

#[test]
fn duplicates_abort_only_a_committing_checked_run() {
    assert!(duplicates_abort(&vec![1], true, false));
    assert!(!duplicates_abort(&vec![1], true, true));
    assert!(!duplicates_abort(&vec![1], false, false));
    assert!(!duplicates_abort(&vec![], true, false));
}

#[test]
fn concurrency_option_is_parsed() {
    assert_eq!(parse_generation_concurrency("", 8), 1);
    assert_eq!(parse_generation_concurrency("max", 8), 8);
    assert_eq!(parse_generation_concurrency("4", 8), 4);
    assert_eq!(parse_generation_concurrency("+3", 8), 3);
    assert_eq!(parse_generation_concurrency("0", 8), 1);
    assert_eq!(parse_generation_concurrency("many", 8), 1);
    assert_eq!(parse_generation_concurrency("99999999999999999999999", 8), 1);
}

#[test]
fn decimal_numbers_parse_as_std_does() {
    for s in ["0", "17", "+5", "", "+", "-1", "1a", "18446744073709551615", "18446744073709551616"] {
        assert_eq!(parse_decimal(s), s.parse::<usize>().ok(), "{}", s);
    }
}

#[test]
fn concurrency_is_clamped() {
    assert_eq!(effective_concurrency(4, false, 8), 1);
    assert_eq!(effective_concurrency(4, true, 8), 4);
    assert_eq!(effective_concurrency(16, true, 8), 8);
    assert_eq!(effective_concurrency(0, true, 8), 1);
    assert_eq!(effective_concurrency(1, false, 8), 1);
}

#[test]
fn batches_are_contiguous_and_cover_every_card() {
    assert_eq!(batch_ranges(10, 3), vec![(0, 4), (4, 8), (8, 10)]);
    assert_eq!(batch_ranges(5, 4), vec![(0, 2), (2, 4), (4, 5), (5, 5)]);
    assert_eq!(batch_ranges(2, 8), vec![(0, 1), (1, 2)]);
    assert_eq!(batch_ranges(7, 1), vec![(0, 7)]);
    assert_eq!(batch_ranges(0, 1), vec![(0, 0)]);
    assert!(batch_ranges(0, 4).is_empty());
    for total in 0..40usize {
        for workers in 1..10usize {
            let r = batch_ranges(total, workers);
            let mut next = 0;
            for &(a, b) in &r {
                assert_eq!(a, next);
                assert!(a <= b);
                next = b;
            }
            assert_eq!(next, total);
        }
    }
}

#[test]
fn stats_count_statuses_and_errors() {
    let mut s = TypFileStats::new("f.typ");
    s.record_status(CardModificationStatus::New);
    s.record_status(CardModificationStatus::New);
    s.record_status(CardModificationStatus::Unchanged);
    s.record_status(CardModificationStatus::Unknown);
    s.record_error(CardModificationStatus::New);
    s.record_error(CardModificationStatus::Updated);
    assert_eq!(s.new_cards, (2, 1));
    assert_eq!(s.updated_cards, (0, 1));
    assert_eq!(s.unchanged_cards, (1, 0));
    assert_eq!(s.total_errors(), 2);
}

#[test]
fn buffer_reuses_the_preamble_within_a_document() {
    let mut buf = CompileBuffer::new();
    let mut text = String::new();
    let apply = |step: BufferStep, base: &str, content: &str, text: &mut String| {
        if let BufferStep::Compile { reset, start, end } = step {
            if reset {
                *text = base.to_string();
            }
            text.replace_range(start..end, content);
        }
    };
    let s1 = buf.next_card(CardModificationStatus::New, &"f1".to_string(), "BASE", "CARD1");
    assert_eq!(s1, BufferStep::Compile { reset: true, start: 4, end: 4 });
    apply(s1, "BASE", "CARD1", &mut text);
    assert_eq!(text, "BASECARD1");
    let s2 = buf.next_card(CardModificationStatus::Updated, &"f1".to_string(), "BASE", "CARD22");
    assert_eq!(s2, BufferStep::Compile { reset: false, start: 4, end: 9 });
    apply(s2, "BASE", "CARD22", &mut text);
    assert_eq!(text, "BASECARD22");
    let s3 = buf.next_card(CardModificationStatus::Unchanged, &"f1".to_string(), "BASE", "ZZ");
    assert_eq!(s3, BufferStep::Skip);
    let s4 = buf.next_card(CardModificationStatus::New, &"f2".to_string(), "BB", "é");
    assert_eq!(s4, BufferStep::Compile { reset: true, start: 2, end: 2 });
    apply(s4, "BB", "é", &mut text);
    assert_eq!(text, "BBé");
    let s5 = buf.next_card(CardModificationStatus::New, &"f2".to_string(), "BB", "x");
    assert_eq!(s5, BufferStep::Compile { reset: false, start: 2, end: 4 });
    apply(s5, "BB", "x", &mut text);
    assert_eq!(text, "BBx");
}

#[test]
fn fewer_than_two_pages_is_an_error() {
    assert_eq!(
        page_count_error(1),
        Some("Error: Compiled document has less than 2 pages.".to_string())
    );
    assert_eq!(page_count_error(0).is_some(), true);
    assert_eq!(page_count_error(2), None);
}

#[test]
fn card_error_rolls_back_and_counts() {
    let mut m = CardsCacheManager::init("t", "c", true, Some("{\"D_a\":\"v\",\"D_b\":\"w\"}".to_string()));
    m.add_card_hash("D", "a", "h");
    let mut s = TypFileStats::new("f");
    let c = card("a", "D", "f", CardModificationStatus::Updated);
    card_error(&mut m, &mut s, &c);
    assert!(!m.old_cache.contains(&"D_a".to_string()));
    assert!(!m.new_cache.contains(&"D_a".to_string()));
    assert!(m.old_cache.contains(&"D_b".to_string()));
    assert_eq!(s.updated_cards, (0, 1));
}

#[test]
fn failed_outcomes_lose_their_fingerprints() {
    let mut m = CardsCacheManager::init("t", "c", true, None);
    let cards = vec![
        card("a", "D", "f", CardModificationStatus::New),
        card("b", "D", "f", CardModificationStatus::New),
        card("c", "D", "f", CardModificationStatus::New),
        card("d", "D", "f", CardModificationStatus::Unchanged),
    ];
    for c in &cards {
        m.add_card_hash(&c.deck_name, &c.card_id, &c.content_hash);
    }
    let outcomes = vec![
        CardOutcome::Uploaded,
        CardOutcome::CompileFailed,
        CardOutcome::UploadFailed,
        CardOutcome::Skipped,
    ];
    apply_outcomes(&mut m, &cards, &outcomes);
    assert!(m.new_cache.contains(&"D_a".to_string()));
    assert!(!m.new_cache.contains(&"D_b".to_string()));
    assert!(!m.new_cache.contains(&"D_c".to_string()));
    assert!(m.new_cache.contains(&"D_d".to_string()));
}

#[test]
fn deck_names_resolve_to_nested_store_decks() {
    let mut cache = DeckNameCache::new(vec!["Other".to_string(), "Parent::D".to_string(), "X::D".to_string()]);
    assert_eq!(cache.get_anki_deck_name("D"), "Parent::D");
    assert_eq!(cache.get_anki_deck_name("D"), "Parent::D");
    assert_eq!(cache.get_anki_deck_name("Other"), "Other");
    assert_eq!(cache.get_anki_deck_name("New"), "New");
}

#[test]
fn basic_model_is_chosen_by_locale_order() {
    let models = vec!["Cloze".to_string(), "Grundlegend".to_string(), "Basique".to_string()];
    assert_eq!(choose_basic_model(&models), Some("Basique".to_string()));
    assert_eq!(choose_basic_model(&vec!["Cloze".to_string()]), None);
    assert_eq!(choose_basic_model(&vec!["Basic".to_string(), "Basique".to_string()]), Some("Basic".to_string()));
}

#[test]
fn model_fields_fall_back_to_defaults() {
    let ok = get_basic_model_name(Some("Basique".to_string()), Some(vec!["Recto".to_string(), "Verso".to_string()]));
    assert_eq!(ok, ("Basique".to_string(), ("Recto".to_string(), "Verso".to_string())));
    let fallback = ("Basic".to_string(), ("Front".to_string(), "Back".to_string()));
    assert_eq!(get_basic_model_name(None, None), fallback);
    assert_eq!(get_basic_model_name(Some("Basic".to_string()), Some(vec!["One".to_string()])), fallback);
    assert_eq!(get_basic_model_name(Some("Basic".to_string()), None), fallback);
}

#[test]
fn existing_notes_are_updated() {
    assert_eq!(note_action(&vec![]), NoteAction::Add);
    assert_eq!(note_action(&vec![42, 7]), NoteAction::Update(42));
}

#[test]
fn cards_are_classified_with_their_store_deck() {
    let mut m = CardsCacheManager::init("t", "c", true, None);
    let cards = vec![
        card("a", "D", "f", CardModificationStatus::Unknown),
        card("b", "E", "g", CardModificationStatus::Unknown),
    ];
    m.add_card_hash(&cards[0].deck_name, &cards[0].card_id, &cards[0].content_hash);
    let text = {
        let key = "D_a".to_string();
        format!("{{\"D_a\":\"{}\"}}", m.new_cache.get(&key).unwrap())
    };
    let m2 = CardsCacheManager::init("t", "c", true, Some(text));
    let mut decks = DeckNameCache::new(vec!["Top::E".to_string()]);
    let out = typ2anki::ingest::classify_cards(cards, &m2, None, &mut decks);
    assert_eq!(out.len(), 2);
    assert_eq!(out[0].card_id, "a");
    assert_eq!(out[0].modification_status, CardModificationStatus::Unchanged);
    assert_eq!(out[0].anki_deck_name.as_deref(), Some("D"));
    assert_eq!(out[1].modification_status, CardModificationStatus::New);
    assert_eq!(out[1].anki_deck_name.as_deref(), Some("Top::E"));
}

#[test]
fn statuses_are_counted_per_document() {
    let cards = vec![
        card("a", "D", "f", CardModificationStatus::New),
        card("b", "D", "f", CardModificationStatus::Unchanged),
        card("c", "D", "g", CardModificationStatus::New),
        card("d", "D", "f", CardModificationStatus::Updated),
        card("e", "D", "f", CardModificationStatus::New),
    ];
    let mut s = TypFileStats::new("f");
    typ2anki::ingest::count_statuses(&mut s, &"f".to_string(), &cards);
    assert_eq!(s.new_cards, (2, 0));
    assert_eq!(s.updated_cards, (1, 0));
    assert_eq!(s.unchanged_cards, (1, 0));
    assert_eq!(s.total_errors(), 0);
}

#[test]
fn config_hash_ignores_order_and_repetition_of_decks() {
    let mut a = config("auto", "png", vec!["B", "A"]);
    a.compute_hash();
    let mut b = config("auto", "png", vec!["A", "B", "A"]);
    b.compute_hash();
    assert_eq!(a.config_hash, b.config_hash);
    let mut c = config("auto", "png", vec!["A"]);
    c.compute_hash();
    assert_ne!(a.config_hash, c.config_hash);
}

#[test]
fn patterns_are_sorted_without_repeats() {
    let v: Vec<String> = vec!["b", "a", "b", "é", "A"].into_iter().map(String::from).collect();
    assert_eq!(typ2anki::config::sorted_unique(&v), vec!["A", "a", "b", "é"]);
}

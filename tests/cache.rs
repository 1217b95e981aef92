use base64::Engine;
use typ2anki::cache::{b64_decode, b64_encode, decode_cache_blob, CardModificationStatus, CardsCacheManager};
use typ2anki::fingerprint::{cache_concat_hashes_padding, card_key, hash_string};
use typ2anki::table::StringTable;

fn decode(payload: &str) -> String {
    let bytes = base64::engine::general_purpose::STANDARD.decode(payload).unwrap();
    String::from_utf8(bytes).unwrap()
}

#[test]
fn md5_digests_are_lowercase_hex() {
    assert_eq!(hash_string(""), "d41d8cd98f00b204e9800998ecf8427e");
    assert_eq!(hash_string("abc"), "900150983cd24fb0d6963f7d28e17f72");
    assert!(hash_string("x").chars().all(|c| c.is_ascii_digit() || ('a'..='f').contains(&c)));
}

#[test]
fn card_keys_join_deck_and_id() {
    assert_eq!(card_key("Deck", "id1"), "Deck_id1");
    assert_eq!(card_key("", ""), "_");
}

#[test]
fn fingerprint_halves_are_padded() {
    assert_eq!(
        cache_concat_hashes_padding("abc", "de"),
        format!("abc{}{}de", "0".repeat(31), "0".repeat(32))
    );
    let s = "s".repeat(34);
    let c = "c".repeat(40);
    assert_eq!(cache_concat_hashes_padding(&s, &c), format!("{}{}", s, c));
    assert_eq!(cache_concat_hashes_padding("", "").len(), 68);
}

#[test]
fn base64_encodes_text() {
    assert_eq!(b64_encode("hello"), "aGVsbG8=");
    assert_eq!(b64_encode(""), "");
}

#[test]
fn table_insert_replace_and_remove() {
    let mut t = StringTable::new();
    t.insert("a".to_string(), "1".to_string());
    t.insert("b".to_string(), "2".to_string());
    t.insert("a".to_string(), "3".to_string());
    assert_eq!(t.len(), 2);
    assert_eq!(t.get(&"a".to_string()), Some(&"3".to_string()));
    t.remove(&"a".to_string());
    assert!(!t.contains(&"a".to_string()));
    assert_eq!(t.len(), 1);
    t.remove(&"missing".to_string());
    assert_eq!(t.len(), 1);
    let pairs = t.to_pairs();
    assert_eq!(pairs, vec![("b".to_string(), "2".to_string())]);
}

#[test]
fn merged_table_prefers_new_entries() {
    let old = StringTable::from_pairs(&vec![
        ("a".to_string(), "old".to_string()),
        ("b".to_string(), "kept".to_string()),
    ]);
    let new = StringTable::from_pairs(&vec![
        ("a".to_string(), "new".to_string()),
        ("c".to_string(), "added".to_string()),
    ]);
    let m = old.merged_with(&new);
    assert_eq!(m.len(), 3);
    assert_eq!(m.get(&"a".to_string()), Some(&"new".to_string()));
    assert_eq!(m.get(&"b".to_string()), Some(&"kept".to_string()));
    assert_eq!(m.get(&"c".to_string()), Some(&"added".to_string()));
}

#[test]
fn init_hashes_template_and_config_together() {
    let m = CardsCacheManager::init("tmpl", "conf", true, None);
    assert_eq!(m.static_hash, hash_string("tmplconf"));
    assert_eq!(m.old_cache.len(), 0);
    assert_eq!(m.new_cache.len(), 0);
}

#[test]
fn init_reads_a_json_table() {
    let m = CardsCacheManager::init("t", "c", true, Some("{\"D_a\":\"v1\",\"E_b\":\"v2\"}".to_string()));
    assert_eq!(m.old_cache.len(), 2);
    assert_eq!(m.old_cache.get(&"D_a".to_string()), Some(&"v1".to_string()));
}

#[test]
fn init_ignores_a_bad_table_or_a_disabled_cache() {
    let m = CardsCacheManager::init("t", "c", true, Some("not json".to_string()));
    assert_eq!(m.old_cache.len(), 0);
    let m = CardsCacheManager::init("t", "c", true, Some("{\"D_a\": 3}".to_string()));
    assert_eq!(m.old_cache.len(), 0);
    let m = CardsCacheManager::init("t", "c", false, Some("{\"D_a\":\"v1\"}".to_string()));
    assert_eq!(m.old_cache.len(), 0);
}

#[test]
fn add_and_remove_card_hash() {
    let mut m = CardsCacheManager::init("t", "c", true, Some("{\"D_a\":\"v1\"}".to_string()));
    m.add_card_hash("D", "a", "h");
    let expected = cache_concat_hashes_padding(&m.static_hash, "h");
    assert_eq!(m.new_cache.get(&"D_a".to_string()), Some(&expected));
    m.remove_card_hash("D", "a");
    assert!(!m.new_cache.contains(&"D_a".to_string()));
    assert!(!m.old_cache.contains(&"D_a".to_string()));
}

#[test]
fn classification_follows_the_halves() {
    let static_hash = hash_string("tc");
    let same = cache_concat_hashes_padding(&static_hash, "h1");
    let drifted = cache_concat_hashes_padding("other", "h1");
    let text = format!(
        "{{\"D_same\":\"{}\",\"D_drift\":\"{}\",\"D_changed\":\"{}\"}}",
        same,
        drifted,
        cache_concat_hashes_padding(&static_hash, "h0")
    );
    let m = CardsCacheManager::init("t", "c", true, Some(text));
    assert_eq!(m.classify_card("D", "new", "h1", None), CardModificationStatus::New);
    assert_eq!(m.classify_card("D", "same", "h1", Some(true)), CardModificationStatus::Unchanged);
    assert_eq!(m.classify_card("D", "drift", "h1", None), CardModificationStatus::Unchanged);
    assert_eq!(m.classify_card("D", "drift", "h1", Some(false)), CardModificationStatus::Unchanged);
    assert_eq!(m.classify_card("D", "drift", "h1", Some(true)), CardModificationStatus::Updated);
    assert_eq!(m.classify_card("D", "changed", "h1", None), CardModificationStatus::Updated);
}

#[test]
fn drift_of_a_fifth_asks_the_operator() {
    let text = format!(
        "{{\"D_a\":\"{}\",\"D_b\":\"{}\",\"D_c\":\"{}\"}}",
        cache_concat_hashes_padding("old", "h1"),
        cache_concat_hashes_padding("old", "h2"),
        cache_concat_hashes_padding("old", "h3")
    );
    let mut m = CardsCacheManager::init("t", "c", true, Some(text));
    m.add_card_hash("D", "a", "h1");
    let d = m.detect_configuration_change(true, None);
    assert_eq!(d.total_cards, 3);
    assert_eq!(d.config_changes, 1);
    assert!(d.ask);
    let d = m.detect_configuration_change(true, Some(false));
    assert!(!d.ask);
    let d = m.detect_configuration_change(false, None);
    assert_eq!((d.total_cards, d.config_changes, d.ask), (0, 0, false));
}

#[test]
fn drift_below_a_fifth_does_not_ask() {
    let mut pairs = Vec::new();
    for i in 0..6 {
        pairs.push(format!("\"D_{}\":\"{}\"", i, cache_concat_hashes_padding("old", "h")));
    }
    let text = format!("{{{}}}", pairs.join(","));
    let mut m = CardsCacheManager::init("t", "c", true, Some(text));
    m.add_card_hash("D", "0", "h");
    let d = m.detect_configuration_change(true, None);
    assert_eq!((d.total_cards, d.config_changes), (6, 1));
    assert!(!d.ask);
}

#[test]
fn saved_cache_is_base64_json_of_the_merge() {
    let mut m = CardsCacheManager::init("t", "c", true, Some("{\"D_a\":\"old\",\"D_b\":\"kept\"}".to_string()));
    m.add_card_hash("D", "a", "h");
    let json = decode(&m.save_cache());
    let value: serde_json::Value = serde_json::from_str(&json).unwrap();
    assert_eq!(value["D_b"], "kept");
    assert_eq!(value["D_a"], cache_concat_hashes_padding(&m.static_hash, "h").as_str());
    assert_eq!(value.as_object().unwrap().len(), 2);
}

#[test]
fn cache_blobs_decode_to_text() {
    assert_eq!(b64_decode("aGVsbG8=").unwrap(), b"hello".to_vec());
    assert!(b64_decode("not base64!").is_err());
    assert_eq!(decode_cache_blob("eyJhIjoiYiJ9"), Some("{\"a\":\"b\"}".to_string()));
    assert_eq!(decode_cache_blob(&b64_encode("é∑")), Some("é∑".to_string()));
    assert_eq!(decode_cache_blob("/w=="), None);
    assert_eq!(decode_cache_blob("%%%"), None);
}

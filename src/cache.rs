use vstd::prelude::*;

use base64::Engine;

use crate::fingerprint::{
    cache_concat_hashes_padding, card_key, composite, content_half, content_half_of, hash_string,
    key_of, lemma_composite_halves, md5_hex, pad_len, static_half, static_half_of, zeros,
    CACHE_HASH_PART_LENGTH,
};
use crate::table::{map_of_pairs, pair_views, StringTable};
use crate::text::chars_eq;
use vstd::utf8::{encode_utf8, valid_utf8};

verus! {

/// How a card compares with the previous run.
#[derive(Debug, Clone, Copy, PartialEq, Eq, Structural)]
pub enum CardModificationStatus {
    /// Not classified yet.
    Unknown,
    /// The previous run has no fingerprint for it.
    New,
    /// Its content changed, or the configuration changed and that is to
    /// force recompilation.
    Updated,
    /// Nothing that matters changed: it is not compiled again.
    Unchanged,
}

/// The pairs of a JSON text that is one object whose values are all strings,
/// in the order of their keys; `None` for any other text.
pub uninterp spec fn json_string_object(s: Seq<char>) -> Option<Seq<(Seq<char>, Seq<char>)>>;

/// The JSON text of an object holding the given pairs.
pub uninterp spec fn json_object_text(pairs: Seq<(Seq<char>, Seq<char>)>) -> Seq<char>;

/// The standard base64 text, with padding, of the UTF-8 bytes of a text.
pub uninterp spec fn base64_text(s: Seq<char>) -> Seq<char>;

/// Relies on `serde_json::from_str` into a `BTreeMap<String, String>`: it
/// succeeds on a JSON object whose values are all strings, and what it yields
/// depends on the text alone.
#[verifier::external_body]
fn parse_string_object(s: &str) -> (r: Option<Vec<(String, String)>>)
    ensures
        match r {
            Some(v) => json_string_object(s@) == Some(pair_views(v@)),
            None => json_string_object(s@) is None,
        },
{
    serde_json::from_str::<std::collections::BTreeMap<String, String>>(s).ok().map(
        |m| m.into_iter().collect(),
    )
}

/// Relies on `serde_json::to_string` of a `BTreeMap<String, String>`: a map
/// with string keys always serializes, and the text depends on the pairs alone.
#[verifier::external_body]
pub(crate) fn object_text(pairs: &Vec<(String, String)>) -> (r: String)
    ensures
        r@ == json_object_text(pair_views(pairs@)),
{
    let m: std::collections::BTreeMap<String, String> = pairs.iter().cloned().collect();
    serde_json::to_string(&m).unwrap_or_default()
}

/// Relies on base64's `STANDARD` engine `encode`: the text depends on the
/// bytes alone.
#[verifier::external_body]
pub fn b64_encode(input: &str) -> (r: String)
    ensures
        r@ == base64_text(input@),
{
    base64::engine::general_purpose::STANDARD.encode(input)
}

/// The bytes that a standard, padded base64 text stands for; `None` for text
/// that is not such base64.
pub uninterp spec fn base64_bytes(s: Seq<char>) -> Option<Seq<u8>>;

#[verifier::external_type_specification]
#[verifier::external_body]
pub struct ExDecodeError(base64::DecodeError);

/// Relies on base64's `STANDARD` engine `decode`: the bytes depend on the
/// text alone, and it fails on text that is not standard base64.
#[verifier::external_body]
pub fn b64_decode(input: &str) -> (r: Result<Vec<u8>, base64::DecodeError>)
    ensures
        match r {
            Ok(v) => base64_bytes(input@) == Some(v@),
            Err(_) => base64_bytes(input@) is None,
        },
{
    base64::engine::general_purpose::STANDARD.decode(input)
}

/// Relies on `String::from_utf8`: it succeeds exactly on valid UTF-8, with
/// the characters those bytes encode.
#[verifier::external_body]
fn utf8_text(bytes: Vec<u8>) -> (r: Option<String>)
    ensures
        match r {
            Some(s) => valid_utf8(bytes@) && encode_utf8(s@) == bytes@,
            None => !valid_utf8(bytes@),
        },
{
    String::from_utf8(bytes).ok()
}

/// The text of a persisted blob: base64 of UTF-8 text. `None` when the blob
/// is not base64 or its bytes are not UTF-8.
pub fn decode_cache_blob(blob: &str) -> (r: Option<String>)
    ensures
        match r {
            Some(t) => base64_bytes(blob@) == Some(encode_utf8(t@)),
            None => base64_bytes(blob@) is None || !valid_utf8(base64_bytes(blob@)->0),
        },
{
    match b64_decode(blob) {
        Ok(bytes) => utf8_text(bytes),
        Err(_) => None,
    }
}

/// How a card is classified against the previous run's table.
pub open spec fn classify(
    old: Map<Seq<char>, Seq<char>>,
    key: Seq<char>,
    fingerprint: Seq<char>,
    recompile_on_config_change: Option<bool>,
) -> CardModificationStatus {
    if !old.contains_key(key) {
        CardModificationStatus::New
    } else if content_half(old[key]) == content_half(fingerprint) {
        if static_half(old[key]) != static_half(fingerprint) && recompile_on_config_change
            == Some(true) {
            CardModificationStatus::Updated
        } else {
            CardModificationStatus::Unchanged
        }
    } else {
        CardModificationStatus::Updated
    }
}

/// How many entries of `pairs` have a key in `new` whose static half differs.
pub open spec fn drift_count(
    pairs: Seq<(Seq<char>, Seq<char>)>,
    new: Map<Seq<char>, Seq<char>>,
) -> nat
    decreases pairs.len(),
{
    if pairs.len() == 0 {
        0
    } else {
        let p = pairs.last();
        drift_count(pairs.drop_last(), new) + if new.contains_key(p.0) && static_half(p.1)
            != static_half(new[p.0]) {
            1nat
        } else {
            0nat
        }
    }
}

/// The table that a fetched cache text gives.
pub open spec fn loaded_table(use_cache: bool, cache_text: Option<Seq<char>>) -> Map<
    Seq<char>,
    Seq<char>,
> {
    if use_cache && cache_text is Some && json_string_object(cache_text->0) is Some {
        map_of_pairs(json_string_object(cache_text->0)->0)
    } else {
        Map::empty()
    }
}

/// What the comparison of the two tables found before classification.
#[derive(Debug, Clone, Copy, PartialEq, Eq, Structural)]
pub struct DriftCheck {
    pub total_cards: usize,
    pub config_changes: usize,
    /// Whether the operator is to be asked if drift alone forces recompilation.
    pub ask: bool,
}

/// The fingerprints of the previous run (`old_cache`) and of this run
/// (`new_cache`), with the hash of the configuration of this run.
pub struct CardsCacheManager {
    pub static_hash: String,
    pub old_cache: StringTable,
    pub new_cache: StringTable,
}

impl CardsCacheManager {
    /// Both tables are well formed, and the static hash is a digest of 32
    /// characters, which fits a half of a fingerprint.
    pub open spec fn wf(&self) -> bool {
        self.old_cache.wf() && self.new_cache.wf() && self.static_hash@.len() == 32
    }

    /// Starts a run: the static hash covers the template's hash and the
    /// configuration's; the previous table is read from `cache_text` when the
    /// cache is in use and the text is a JSON object of strings, else empty.
    pub fn init(
        ankiconf_hash: &str,
        config_hash: &str,
        use_cache: bool,
        cache_text: Option<String>,
    ) -> (r: Self)
        ensures
            r.wf(),
            r.static_hash@ == md5_hex(ankiconf_hash@ + config_hash@),
            r.static_hash@.len() == 32,
            r.old_cache@ == loaded_table(
                use_cache,
                match cache_text {
                    Some(t) => Some(t@),
                    None => None,
                },
            ),
            r.new_cache@ == Map::<Seq<char>, Seq<char>>::empty(),
    {
        let mut joined = String::from_str(ankiconf_hash);
        joined.append(config_hash);
        let static_hash = hash_string(joined.as_str());
        let old_cache = if !use_cache {
            StringTable::new()
        } else {
            match cache_text {
                None => StringTable::new(),
                Some(t) => match parse_string_object(t.as_str()) {
                    Some(pairs) => StringTable::from_pairs(&pairs),
                    None => StringTable::new(),
                },
            }
        };
        CardsCacheManager { static_hash, old_cache, new_cache: StringTable::new() }
    }

    /// Records this run's fingerprint of a card.
    pub fn add_card_hash(&mut self, deck_name: &str, card_id: &str, content_hash: &str)
        requires
            old(self).wf(),
        ensures
            final(self).wf(),
            final(self).static_hash == old(self).static_hash,
            final(self).old_cache@ == old(self).old_cache@,
            final(self).new_cache@ == old(self).new_cache@.insert(
                key_of(deck_name@, card_id@),
                composite(old(self).static_hash@, content_hash@),
            ),
    {
        let key = card_key(deck_name, card_id);
        let value = cache_concat_hashes_padding(self.static_hash.as_str(), content_hash);
        self.new_cache.insert(key, value);
    }

    /// Forgets a card in both tables, so that the next run sees it as new.
    pub fn remove_card_hash(&mut self, deck_name: &str, card_id: &str)
        requires
            old(self).wf(),
        ensures
            final(self).wf(),
            final(self).static_hash == old(self).static_hash,
            final(self).old_cache@ == old(self).old_cache@.remove(key_of(deck_name@, card_id@)),
            final(self).new_cache@ == old(self).new_cache@.remove(key_of(deck_name@, card_id@)),
            !final(self).old_cache@.contains_key(key_of(deck_name@, card_id@)),
            !final(self).new_cache@.contains_key(key_of(deck_name@, card_id@)),
    {
        let key = card_key(deck_name, card_id);
        self.new_cache.remove(&key);
        self.old_cache.remove(&key);
    }

    /// Classifies a card whose content hash is `content_hash`.
    pub fn classify_card(
        &self,
        deck_name: &str,
        card_id: &str,
        content_hash: &str,
        recompile_on_config_change: Option<bool>,
    ) -> (r: CardModificationStatus)
        requires
            self.wf(),
        ensures
            r == classify(
                self.old_cache@,
                key_of(deck_name@, card_id@),
                composite(self.static_hash@, content_hash@),
                recompile_on_config_change,
            ),
    {
        let key = card_key(deck_name, card_id);
        match self.old_cache.get(&key) {
            None => CardModificationStatus::New,
            Some(old_hash) => {
                let fp = cache_concat_hashes_padding(self.static_hash.as_str(), content_hash);
                let same_content = chars_eq(&content_half_of(old_hash), &content_half_of(&fp));
                if same_content {
                    let same_static = chars_eq(&static_half_of(old_hash), &static_half_of(&fp));
                    if !same_static && recompile_on_config_change == Some(true) {
                        CardModificationStatus::Updated
                    } else {
                        CardModificationStatus::Unchanged
                    }
                } else {
                    CardModificationStatus::Updated
                }
            },
        }
    }

    /// Compares the static half of every previous fingerprint with this run's
    /// fingerprint of the same card. The operator is to be asked when the cache
    /// is in use, no decision was taken yet, and at least a fifth of the
    /// previous cards drifted.
    pub fn detect_configuration_change(
        &self,
        use_cache: bool,
        recompile_on_config_change: Option<bool>,
    ) -> (r: DriftCheck)
        requires
            self.wf(),
        ensures
            !use_cache ==> r == (DriftCheck { total_cards: 0, config_changes: 0, ask: false }),
            use_cache ==> r.total_cards == self.old_cache@.len(),
            use_cache ==> r.config_changes == drift_count(
                self.old_cache.pairs(),
                self.new_cache@,
            ),
            use_cache ==> r.ask == (recompile_on_config_change is None && r.total_cards > 0 && 5
                * r.config_changes >= r.total_cards),
    {
        if !use_cache {
            return DriftCheck { total_cards: 0, config_changes: 0, ask: false };
        }
        let n = self.old_cache.len();
        proof {
            self.old_cache.lemma_pairs();
        }
        let mut changes: usize = 0;
        let mut i: usize = 0;
        while i < n
            invariant
                self.wf(),
                n == self.old_cache.len_spec(),
                n == self.old_cache.pairs().len(),
                i <= n,
                changes <= i,
                changes == drift_count(self.old_cache.pairs().subrange(0, i as int), self.new_cache@),
            decreases n - i,
        {
            let (k, v) = self.old_cache.entry(i);
            let ghost p = self.old_cache.pairs().subrange(0, i + 1);
            assert(p.drop_last() =~= self.old_cache.pairs().subrange(0, i as int));
            match self.new_cache.get(k) {
                Some(nv) => {
                    if !chars_eq(&static_half_of(v), &static_half_of(nv)) {
                        changes = changes + 1;
                    }
                },
                None => {},
            }
            i = i + 1;
        }
        assert(self.old_cache.pairs().subrange(0, n as int) =~= self.old_cache.pairs());
        let ask = recompile_on_config_change.is_none() && n > 0 && (changes as u128) * 5 >= (
        n as u128);
        DriftCheck { total_cards: n, config_changes: changes, ask }
    }

    /// The table to persist: previous entries that this run did not replace,
    /// with all of this run's entries.
    pub fn merged_cache(&self) -> (r: StringTable)
        requires
            self.wf(),
        ensures
            r.wf(),
            r@ == self.old_cache@.union_prefer_right(self.new_cache@),
    {
        self.old_cache.merged_with(&self.new_cache)
    }

    /// The blob that persists the merged table: the base64 text of its JSON.
    pub fn save_cache(&self) -> (r: String)
        requires
            self.wf(),
        ensures
            exists|t: StringTable|
                t.wf() && t@ == self.old_cache@.union_prefer_right(self.new_cache@) && r@
                    == base64_text(json_object_text(#[trigger] t.pairs())),
    {
        let merged = self.merged_cache();
        cache_payload(&merged)
    }
}

/// With no previous table, every card is new, whatever its fingerprint.
pub proof fn lemma_empty_table_classifies_new(
    key: Seq<char>,
    fingerprint: Seq<char>,
    recompile_on_config_change: Option<bool>,
)
    ensures
        classify(Map::empty(), key, fingerprint, recompile_on_config_change)
            == CardModificationStatus::New,
{
}

/// A run that sees a card with the same static and content hash as the run
/// before classifies it unchanged: the previous run's persisted table (its
/// old entries overwritten by its new ones) holds that very fingerprint.
pub proof fn lemma_rerun_classifies_unchanged(
    previous_old: Map<Seq<char>, Seq<char>>,
    previous_new: Map<Seq<char>, Seq<char>>,
    key: Seq<char>,
    static_hash: Seq<char>,
    content_hash: Seq<char>,
    recompile_on_config_change: Option<bool>,
)
    requires
        previous_new.contains_key(key),
        previous_new[key] == composite(static_hash, content_hash),
    ensures
        classify(
            previous_old.union_prefer_right(previous_new),
            key,
            composite(static_hash, content_hash),
            recompile_on_config_change,
        ) == CardModificationStatus::Unchanged,
{
}

/// A card whose content hash changed is updated, whatever happened to the
/// static hash and whatever the operator decided about configuration drift.
pub proof fn lemma_changed_content_classifies_updated(
    old: Map<Seq<char>, Seq<char>>,
    key: Seq<char>,
    old_static: Seq<char>,
    new_static: Seq<char>,
    old_content: Seq<char>,
    new_content: Seq<char>,
    recompile_on_config_change: Option<bool>,
)
    requires
        old.contains_key(key),
        old[key] == composite(old_static, old_content),
        old_static.len() <= CACHE_HASH_PART_LENGTH,
        new_static.len() <= CACHE_HASH_PART_LENGTH,
        old_content.len() == 32,
        new_content.len() == 32,
        old_content != new_content,
    ensures
        classify(old, key, composite(new_static, new_content), recompile_on_config_change)
            == CardModificationStatus::Updated,
{
    lemma_composite_halves(old_static, old_content);
    lemma_composite_halves(new_static, new_content);
    let a = zeros(pad_len(old_content)) + old_content;
    let b = zeros(pad_len(new_content)) + new_content;
    if a == b {
        assert(a.subrange(2, 34) =~= old_content);
        assert(b.subrange(2, 34) =~= new_content);
    }
}

/// The base64 text of the JSON object that holds `table`.
pub fn cache_payload(table: &StringTable) -> (r: String)
    requires
        table.wf(),
    ensures
        r@ == base64_text(json_object_text(table.pairs())),
{
    let pairs = table.to_pairs();
    let text = object_text(&pairs);
    b64_encode(text.as_str())
}

} // verus!

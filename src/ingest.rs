use vstd::prelude::*;

use crate::cache::{classify, CardModificationStatus, CardsCacheManager};
use crate::card::{card_is_empty, deck_field, field_value, id_field, is_card_empty, CardInfo};
use crate::config::Config;
use crate::extract::{
    all_space, cards_of, lemma_card_text_yields_one_record, parse_cards_string, well_formed_card,
};
use crate::fingerprint::{composite, key_of, md5_hex};
use crate::upload::{store_deck_name, DeckNameCache};
use crate::stats::TypFileStats;

verus! {

/// What becomes of one card text of a document.
#[derive(Debug, Clone, Copy, PartialEq, Eq, Structural)]
pub enum CardKind {
    /// Question and answer are blank: counted, not compiled.
    Empty,
    /// The id or the deck is missing: reported, not cached.
    Broken,
    /// Its deck is excluded: counted as skipped.
    Excluded,
    /// Taken into the run.
    Accepted,
}

pub open spec fn card_id_of(c: Seq<char>) -> Seq<char> {
    field_value(c, id_field())->0
}

pub open spec fn deck_of(c: Seq<char>) -> Seq<char> {
    field_value(c, deck_field())->0
}

pub open spec fn card_kind(cfg: &Config, c: Seq<char>) -> CardKind {
    if card_is_empty(c) {
        CardKind::Empty
    } else if field_value(c, id_field()) is None || field_value(c, deck_field()) is None {
        CardKind::Broken
    } else if cfg.deck_excluded(deck_of(c)) {
        CardKind::Excluded
    } else {
        CardKind::Accepted
    }
}

/// How many of `texts` are of kind `k`.
pub open spec fn count_kind(cfg: &Config, texts: Seq<Seq<char>>, k: CardKind) -> nat
    decreases texts.len(),
{
    if texts.len() == 0 {
        0
    } else {
        count_kind(cfg, texts.drop_last(), k) + if card_kind(cfg, texts.last()) == k {
            1nat
        } else {
            0nat
        }
    }
}

/// The texts taken into the run, in order.
pub open spec fn accepted_texts(cfg: &Config, texts: Seq<Seq<char>>) -> Seq<Seq<char>>
    decreases texts.len(),
{
    if texts.len() == 0 {
        Seq::empty()
    } else if card_kind(cfg, texts.last()) == CardKind::Accepted {
        accepted_texts(cfg, texts.drop_last()).push(texts.last())
    } else {
        accepted_texts(cfg, texts.drop_last())
    }
}

/// A table after the fingerprints of `texts` were recorded in order.
pub open spec fn table_after(
    m: Map<Seq<char>, Seq<char>>,
    static_hash: Seq<char>,
    texts: Seq<Seq<char>>,
) -> Map<Seq<char>, Seq<char>>
    decreases texts.len(),
{
    if texts.len() == 0 {
        m
    } else {
        let c = texts.last();
        table_after(m, static_hash, texts.drop_last()).insert(
            key_of(deck_of(c), card_id_of(c)),
            composite(static_hash, md5_hex(c)),
        )
    }
}

/// The card that an accepted text becomes.
pub open spec fn card_from_text(c: CardInfo, text: Seq<char>, file: Seq<char>) -> bool {
    &&& c.content@ == text
    &&& c.card_id@ == card_id_of(text)
    &&& c.deck_name@ == deck_of(text)
    &&& c.content_hash@ == md5_hex(text)
    &&& c.source_file@ == file
    &&& c.anki_deck_name is None
    &&& c.modification_status == CardModificationStatus::Unknown
}

pub open spec fn names_hold(names: Seq<String>, d: Seq<char>) -> bool {
    exists|j: int| 0 <= j < names.len() && #[trigger] names[j]@ == d
}

pub open spec fn distinct_names(names: Seq<String>) -> bool {
    forall|a: int, b: int| 0 <= a < b < names.len() ==> #[trigger] names[a]@ != #[trigger] names[b]@
}

/// `names` holds the names of `start` and the decks of `acc`, and no other.
pub open spec fn names_cover(names: Seq<String>, start: Seq<String>, acc: Seq<Seq<char>>) -> bool {
    forall|x: Seq<char>|
        names_hold(names, x) <==> (names_hold(start, x) || exists|k: int|
            0 <= k < acc.len() && deck_of(#[trigger] acc[k]) == x)
}

/// What a document gave.
pub struct FileParse {
    pub stats: TypFileStats,
    /// How many card texts lacked an id or a deck.
    pub parse_errors: usize,
}

fn add_name(names: &mut Vec<String>, d: &String)
    requires
        distinct_names(old(names)@),
    ensures
        distinct_names(final(names)@),
        forall|x: Seq<char>| names_hold(final(names)@, x) <==> (names_hold(old(names)@, x) || x == d@),
{
    let mut j: usize = 0;
    while j < names.len()
        invariant
            j <= names.len(),
            names@ == old(names)@,
            distinct_names(old(names)@),
            forall|t: int| 0 <= t < j ==> names@[t]@ != d@,
        decreases names.len() - j,
    {
        if names[j] == *d {
            assert(names@[j as int]@ == d@);
            return;
        }
        j = j + 1;
    }
    names.push(d.clone());
    assert forall|x: Seq<char>| names_hold(names@, x) <==> (names_hold(old(names)@, x) || x == d@) by {
        if names_hold(old(names)@, x) {
            let t = choose|t: int| 0 <= t < old(names)@.len() && #[trigger] old(names)@[t]@ == x;
            assert(names@[t]@ == x);
        }
        if x == d@ {
            assert(names@[names.len() - 1]@ == x);
        }
        if names_hold(names@, x) {
            let t = choose|t: int| 0 <= t < names@.len() && #[trigger] names@[t]@ == x;
            if t < old(names)@.len() {
                assert(old(names)@[t]@ == x);
            }
        }
    }
}

/// Takes the cards of one document into the run: blank cards are counted,
/// cards without id or deck are counted as errors, cards of an excluded deck
/// are skipped, and every other card is appended to `cards`, its deck to
/// `deck_names`, and its fingerprint to this run's table.
pub fn parse_cards_from_file_content(
    cfg: &Config,
    filepath: &String,
    content: &str,
    cards_cache_manager: &mut CardsCacheManager,
    i: &mut i64,
    deck_names: &mut Vec<String>,
    cards: &mut Vec<CardInfo>,
) -> (r: FileParse)
    requires
        old(cards_cache_manager).wf(),
        distinct_names(old(deck_names)@),
        *old(i) + cards_of(content@).len() <= i64::MAX,
    ensures
        ({
            let texts = cards_of(content@);
            let acc = accepted_texts(cfg, texts);
            &&& final(cards_cache_manager).wf()
            &&& final(cards_cache_manager).static_hash == old(cards_cache_manager).static_hash
            &&& final(cards_cache_manager).old_cache@ == old(cards_cache_manager).old_cache@
            &&& final(cards_cache_manager).new_cache@ == table_after(
                old(cards_cache_manager).new_cache@,
                old(cards_cache_manager).static_hash@,
                acc,
            )
            &&& r.stats.total_cards == count_kind(cfg, texts, CardKind::Accepted)
            &&& r.stats.empty_cards == count_kind(cfg, texts, CardKind::Empty)
            &&& r.stats.skipped_cards == count_kind(cfg, texts, CardKind::Excluded)
            &&& r.parse_errors == count_kind(cfg, texts, CardKind::Broken)
            &&& r.stats.new_cards == (0usize, 0usize)
            &&& r.stats.updated_cards == (0usize, 0usize)
            &&& r.stats.unchanged_cards == (0usize, 0usize)
            &&& final(cards).len() == old(cards).len() + acc.len()
            &&& forall|k: int| 0 <= k < old(cards).len() ==> #[trigger] final(cards)[k] == old(cards)[k]
            &&& forall|k: int|
                0 <= k < acc.len() ==> card_from_text(
                    #[trigger] final(cards)[old(cards).len() + k],
                    acc[k],
                    filepath@,
                )
            &&& *final(i) == *old(i) + acc.len()
            &&& distinct_names(final(deck_names)@)
            &&& names_cover(final(deck_names)@, old(deck_names)@, acc)
        }),
{
    let mut stats = TypFileStats::new(filepath.as_str());
    let mut parse_errors: usize = 0;
    let parsed = parse_cards_string(content);
    let ghost texts = cards_of(content@);
    let ghost start_cards = cards@;
    let ghost start_names = deck_names@;
    let ghost start_table = cards_cache_manager.new_cache@;
    let ghost start_i = *i;
    let mut n: usize = 0;
    let ghost mut acc: Seq<Seq<char>> = Seq::empty();
    while n < parsed.len()
        invariant
            parsed.len() == texts.len(),
            forall|k: int| 0 <= k < parsed.len() ==> #[trigger] parsed[k]@ == texts[k],
            n <= parsed.len(),
            acc == accepted_texts(cfg, texts.subrange(0, n as int)),
            *old(i) == start_i,
            start_i + texts.len() <= i64::MAX,
            cards_cache_manager.wf(),
            cards_cache_manager.static_hash == old(cards_cache_manager).static_hash,
            cards_cache_manager.old_cache@ == old(cards_cache_manager).old_cache@,
            start_table == old(cards_cache_manager).new_cache@,
            cards_cache_manager.new_cache@ == table_after(
                start_table,
                cards_cache_manager.static_hash@,
                acc,
            ),
            stats.total_cards == count_kind(cfg, texts.subrange(0, n as int), CardKind::Accepted),
            stats.empty_cards == count_kind(cfg, texts.subrange(0, n as int), CardKind::Empty),
            stats.skipped_cards == count_kind(cfg, texts.subrange(0, n as int), CardKind::Excluded),
            parse_errors == count_kind(cfg, texts.subrange(0, n as int), CardKind::Broken),
            stats.total_cards <= n,
            stats.empty_cards <= n,
            stats.skipped_cards <= n,
            parse_errors <= n,
            stats.new_cards == (0usize, 0usize),
            stats.updated_cards == (0usize, 0usize),
            stats.unchanged_cards == (0usize, 0usize),
            start_cards == old(cards)@,
            cards.len() == start_cards.len() + acc.len(),
            acc.len() <= n,
            forall|k: int| 0 <= k < start_cards.len() ==> #[trigger] cards@[k] == start_cards[k],
            forall|k: int|
                0 <= k < acc.len() ==> card_from_text(
                    #[trigger] cards@[start_cards.len() + k],
                    acc[k],
                    filepath@,
                ),
            *i == start_i + acc.len(),
            start_names == old(deck_names)@,
            distinct_names(deck_names@),
            names_cover(deck_names@, start_names, acc),
        decreases parsed.len() - n,
    {
        let ghost prev = texts.subrange(0, n as int);
        let ghost next = texts.subrange(0, n + 1);
        assert(next.drop_last() =~= prev);
        assert(next.last() == texts[n as int]);
        let ghost acc_prev = accepted_texts(cfg, prev);
        let card_str = &parsed[n];
        if is_card_empty(card_str.as_str()) {
            stats.empty_cards = stats.empty_cards + 1;
            assert(accepted_texts(cfg, next) == acc_prev);
        } else {
            match CardInfo::from_string(*i, card_str.as_str(), filepath.clone()) {
                Ok(card_info) => {
                    if cfg.is_deck_excluded(card_info.deck_name.as_str()) {
                        stats.skipped_cards = stats.skipped_cards + 1;
                        assert(accepted_texts(cfg, next) == acc_prev);
                    } else {
                        cards_cache_manager.add_card_hash(
                            card_info.deck_name.as_str(),
                            card_info.card_id.as_str(),
                            card_info.content_hash.as_str(),
                        );
                        let ghost names_before = deck_names@;
                        let ghost card_info_deck = card_info.deck_name@;
                        add_name(deck_names, &card_info.deck_name);
                        cards.push(card_info);
                        *i = *i + 1;
                        stats.total_cards = stats.total_cards + 1;
                        proof {
                            acc = acc.push(texts[n as int]);
                            let acc_next = acc;
                            assert(accepted_texts(cfg, next) == acc_prev.push(texts[n as int]));
                            assert(acc_next.drop_last() =~= acc_prev);
                            assert(acc_next.last() == texts[n as int]);
                            assert(names_cover(names_before, start_names, acc_prev));
                            assert forall|x: Seq<char>|
                                names_hold(deck_names@, x) <==> (names_hold(start_names, x)
                                    || exists|k: int|
                                    0 <= k < acc_next.len() && deck_of(#[trigger] acc_next[k])
                                        == x) by {
                                assert(names_hold(names_before, x) <==> (names_hold(
                                    start_names,
                                    x,
                                ) || exists|k: int|
                                    0 <= k < acc_prev.len() && deck_of(#[trigger] acc_prev[k])
                                        == x));
                                assert(names_hold(deck_names@, x) <==> (names_hold(
                                    names_before,
                                    x,
                                ) || x == card_info_deck));
                                if x == deck_of(texts[n as int]) {
                                    assert(acc_next[acc_prev.len() as int] == texts[n as int]);
                                }
                                if names_hold(deck_names@, x) && x != deck_of(texts[n as int]) {
                                    assert(names_hold(names_before, x));
                                }
                                if exists|k: int|
                                    0 <= k < acc_prev.len() && deck_of(#[trigger] acc_prev[k])
                                        == x {
                                    let k = choose|k: int|
                                        0 <= k < acc_prev.len() && deck_of(
                                            #[trigger] acc_prev[k],
                                        ) == x;
                                    assert(acc_next[k] == acc_prev[k]);
                                }
                                if exists|k: int|
                                    0 <= k < acc_next.len() && deck_of(#[trigger] acc_next[k])
                                        == x {
                                    let k = choose|k: int|
                                        0 <= k < acc_next.len() && deck_of(
                                            #[trigger] acc_next[k],
                                        ) == x;
                                    if k < acc_prev.len() {
                                        assert(acc_prev[k] == acc_next[k]);
                                    }
                                }
                            }
                            assert forall|k: int|
                                0 <= k < acc_next.len() implies card_from_text(
                                #[trigger] cards@[start_cards.len() + k],
                                acc_next[k],
                                filepath@,
                            ) by {
                                if k < acc_prev.len() {
                                    assert(acc_next[k] == acc_prev[k]);
                                }
                            }
                        }
                    }
                },
                Err(_) => {
                    parse_errors = parse_errors + 1;
                    assert(accepted_texts(cfg, next) == acc_prev);
                },
            }
        }
        n = n + 1;
    }
    assert(texts.subrange(0, parsed.len() as int) =~= texts);
    FileParse { stats, parse_errors }
}

/// Card `i` repeats the id of an earlier card.
pub open spec fn id_seen_before(cards: Seq<CardInfo>, i: int) -> bool {
    exists|j: int| 0 <= j < i && #[trigger] cards[j].card_id@ == cards[i].card_id@
}

/// The positions of the cards whose id an earlier card already has.
pub fn duplicate_card_ids(cards: &Vec<CardInfo>) -> (r: Vec<usize>)
    ensures
        forall|k: int| 0 <= k < r.len() ==> #[trigger] r[k] < cards.len() && id_seen_before(cards@, r[k] as int),
        forall|a: int, b: int| 0 <= a < b < r.len() ==> #[trigger] r[a] < #[trigger] r[b],
        forall|i: int|
            0 <= i < cards.len() && id_seen_before(cards@, i) ==> exists|k: int|
                0 <= k < r.len() && #[trigger] r[k] == i,
{
    let mut r: Vec<usize> = Vec::new();
    let mut i: usize = 0;
    while i < cards.len()
        invariant
            i <= cards.len(),
            forall|k: int| 0 <= k < r.len() ==> #[trigger] r[k] < i && id_seen_before(cards@, r[k] as int),
            forall|a: int, b: int| 0 <= a < b < r.len() ==> #[trigger] r[a] < #[trigger] r[b],
            forall|t: int|
                0 <= t < i && id_seen_before(cards@, t) ==> exists|k: int|
                    0 <= k < r.len() && #[trigger] r[k] == t,
        decreases cards.len() - i,
    {
        let mut j: usize = 0;
        let mut seen = false;
        while j < i
            invariant
                j <= i < cards.len(),
                !seen ==> forall|t: int| 0 <= t < j ==> #[trigger] cards@[t].card_id@ != cards@[i as int].card_id@,
                seen ==> id_seen_before(cards@, i as int),
            decreases i - j,
        {
            if cards[j].card_id == cards[i].card_id {
                seen = true;
            }
            j = j + 1;
        }
        let ghost r_before = r@;
        if seen {
            r.push(i);
        }
        proof {
            assert forall|t: int|
                0 <= t < i + 1 && id_seen_before(cards@, t) implies exists|k: int|
                0 <= k < r.len() && #[trigger] r[k] == t by {
                if t == i {
                    if !seen {
                        let j = choose|j: int|
                            0 <= j < t && #[trigger] cards@[j].card_id@ == cards@[t].card_id@;
                    }
                    assert(r[r.len() - 1] == t);
                } else {
                    let k = choose|k: int| 0 <= k < r_before.len() && #[trigger] r_before[k] == t;
                    assert(r[k] == t);
                }
            }
        }
        i = i + 1;
    }
    r
}

/// Whether the run stops before any compilation: duplicate checking is on,
/// some id repeats, and the run commits its work.
pub fn duplicates_abort(duplicates: &Vec<usize>, check_duplicates: bool, dry_run: bool) -> (r: bool)
    ensures
        r == (check_duplicates && duplicates.len() > 0 && !dry_run),
{
    check_duplicates && duplicates.len() > 0 && !dry_run
}

/// Card `c` is card `o` classified against `mgr`'s previous table, with its
/// deck's full name in the store.
pub open spec fn classified(
    c: CardInfo,
    o: CardInfo,
    mgr: &CardsCacheManager,
    recompile_on_config_change: Option<bool>,
    store_names: Seq<Seq<char>>,
) -> bool {
    &&& c.modification_status == classify(
        mgr.old_cache@,
        key_of(o.deck_name@, o.card_id@),
        composite(mgr.static_hash@, o.content_hash@),
        recompile_on_config_change,
    )
    &&& c.anki_deck_name is Some
    &&& c.anki_deck_name->0@ == store_deck_name(store_names, o.deck_name@)
    &&& c.source_file == o.source_file
    &&& c.card_id == o.card_id
    &&& c.deck_name == o.deck_name
    &&& c.content == o.content
    &&& c.content_hash == o.content_hash
}

/// Classifies every card of the run and looks up its deck in the store.
pub fn classify_cards(
    cards: Vec<CardInfo>,
    cards_cache_manager: &CardsCacheManager,
    recompile_on_config_change: Option<bool>,
    decks: &mut DeckNameCache,
) -> (r: Vec<CardInfo>)
    requires
        cards_cache_manager.wf(),
        old(decks).wf(),
    ensures
        final(decks).wf(),
        final(decks).names() == old(decks).names(),
        r.len() == cards.len(),
        forall|k: int|
            0 <= k < cards.len() ==> classified(
                #[trigger] r[k],
                cards[k],
                cards_cache_manager,
                recompile_on_config_change,
                old(decks).names(),
            ),
{
    let ghost given = cards@;
    let mut rest = cards;
    let mut out: Vec<CardInfo> = Vec::new();
    while rest.len() > 0
        invariant
            decks.wf(),
            decks.names() == old(decks).names(),
            cards_cache_manager.wf(),
            out.len() + rest.len() == given.len(),
            rest@ == given.subrange(out.len() as int, given.len() as int),
            forall|k: int|
                0 <= k < out.len() ==> classified(
                    #[trigger] out[k],
                    given[k],
                    cards_cache_manager,
                    recompile_on_config_change,
                    old(decks).names(),
                ),
        decreases rest.len(),
    {
        let ghost before = rest@;
        let mut c = rest.remove(0);
        assert(c == given[out.len() as int]);
        assert(rest@ =~= given.subrange(out.len() + 1, given.len() as int));
        c.set_status(cards_cache_manager, recompile_on_config_change);
        let name = decks.get_anki_deck_name(c.deck_name.as_str());
        c.anki_deck_name = Some(name);
        out.push(c);
    }
    out
}

/// How many of `cards` come from document `file` with status `status`.
pub open spec fn status_count(cards: Seq<CardInfo>, file: Seq<char>, status: CardModificationStatus) -> nat
    decreases cards.len(),
{
    if cards.len() == 0 {
        0
    } else {
        status_count(cards.drop_last(), file, status) + if cards.last().source_file@ == file
            && cards.last().modification_status == status {
            1nat
        } else {
            0nat
        }
    }
}

/// Counts the classified cards of one document into its counters; error
/// counters stay as they are.
pub fn count_statuses(stats: &mut TypFileStats, file: &String, cards: &Vec<CardInfo>)
    requires
        old(stats).new_cards.0 + cards.len() <= usize::MAX,
        old(stats).updated_cards.0 + cards.len() <= usize::MAX,
        old(stats).unchanged_cards.0 + cards.len() <= usize::MAX,
    ensures
        final(stats).new_cards.0 == old(stats).new_cards.0 + status_count(cards@, file@, CardModificationStatus::New),
        final(stats).updated_cards.0 == old(stats).updated_cards.0 + status_count(cards@, file@, CardModificationStatus::Updated),
        final(stats).unchanged_cards.0 == old(stats).unchanged_cards.0 + status_count(cards@, file@, CardModificationStatus::Unchanged),
        final(stats).error_sum() == old(stats).error_sum(),
        final(stats).new_cards.1 == old(stats).new_cards.1,
        final(stats).updated_cards.1 == old(stats).updated_cards.1,
        final(stats).unchanged_cards.1 == old(stats).unchanged_cards.1,
        final(stats).total_cards == old(stats).total_cards,
        final(stats).empty_cards == old(stats).empty_cards,
        final(stats).skipped_cards == old(stats).skipped_cards,
{
    let mut i: usize = 0;
    while i < cards.len()
        invariant
            i <= cards.len(),
            old(stats).new_cards.0 + cards.len() <= usize::MAX,
            old(stats).updated_cards.0 + cards.len() <= usize::MAX,
            old(stats).unchanged_cards.0 + cards.len() <= usize::MAX,
            stats.new_cards.0 == old(stats).new_cards.0 + status_count(cards@.subrange(0, i as int), file@, CardModificationStatus::New),
            stats.updated_cards.0 == old(stats).updated_cards.0 + status_count(cards@.subrange(0, i as int), file@, CardModificationStatus::Updated),
            stats.unchanged_cards.0 == old(stats).unchanged_cards.0 + status_count(cards@.subrange(0, i as int), file@, CardModificationStatus::Unchanged),
            status_count(cards@.subrange(0, i as int), file@, CardModificationStatus::New) <= i,
            status_count(cards@.subrange(0, i as int), file@, CardModificationStatus::Updated) <= i,
            status_count(cards@.subrange(0, i as int), file@, CardModificationStatus::Unchanged) <= i,
            stats.new_cards.1 == old(stats).new_cards.1,
            stats.updated_cards.1 == old(stats).updated_cards.1,
            stats.unchanged_cards.1 == old(stats).unchanged_cards.1,
            stats.total_cards == old(stats).total_cards,
            stats.empty_cards == old(stats).empty_cards,
            stats.skipped_cards == old(stats).skipped_cards,
        decreases cards.len() - i,
    {
        assert(cards@.subrange(0, i + 1).drop_last() =~= cards@.subrange(0, i as int));
        if cards[i].source_file == *file {
            stats.record_status(cards[i].modification_status);
        }
        i = i + 1;
    }
    assert(cards@.subrange(0, cards.len() as int) =~= cards@);
}

/// A document that is one well-formed card text with an id and a deck of
/// its own, not blank and not excluded, with only white space around it,
/// brings exactly that card into the run, with the card's id and deck.
pub proof fn lemma_single_card_document_is_taken(
    cfg: &Config,
    pre: Seq<char>,
    c: Seq<char>,
    post: Seq<char>,
    kw: Seq<char>,
)
    requires
        well_formed_card(c, kw),
        all_space(pre),
        all_space(post),
        field_value(c, id_field()) is Some,
        field_value(c, deck_field()) is Some,
        !card_is_empty(seq!['\n'] + c),
        !cfg.deck_excluded(field_value(c, deck_field())->0),
    ensures
        accepted_texts(cfg, cards_of(pre + c + post)) == seq![seq!['\n'] + c],
        count_kind(cfg, cards_of(pre + c + post), CardKind::Accepted) == 1,
        card_id_of(seq!['\n'] + c) == field_value(c, id_field())->0,
        deck_of(seq!['\n'] + c) == field_value(c, deck_field())->0,
{
    lemma_card_text_yields_one_record(pre, c, post, kw);
    let texts = cards_of(pre + c + post);
    let rec = seq!['\n'] + c;
    assert(texts =~= seq![rec]);
    assert(card_kind(cfg, rec) == CardKind::Accepted);
    assert(texts.drop_last() =~= Seq::<Seq<char>>::empty());
    assert(accepted_texts(cfg, texts.drop_last()) == Seq::<Seq<char>>::empty());
    assert(count_kind(cfg, texts.drop_last(), CardKind::Accepted) == 0);
}

} // verus!

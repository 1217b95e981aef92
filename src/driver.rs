use vstd::prelude::*;
use vstd::string::StringSliceAdditionalSpecFns;

use crate::cache::{CardModificationStatus, CardsCacheManager};
use crate::card::CardInfo;
use crate::fingerprint::key_of;
use crate::stats::TypFileStats;

verus! {

/// `t` with the bytes from `a` to `b` replaced by `x`.
pub open spec fn splice(t: Seq<u8>, a: int, b: int, x: Seq<u8>) -> Seq<u8> {
    t.subrange(0, a) + x + t.subrange(b, t.len() as int)
}

/// What the compiler's document buffer is to do for one card.
#[derive(Debug, Clone, Copy, PartialEq, Eq, Structural)]
pub enum BufferStep {
    /// The card is unchanged: no compilation, no rendering.
    Skip,
    /// When `reset`, the buffer is first replaced by the preamble of the
    /// card's document; then the bytes from `start` to `end` are replaced by
    /// the card's text and the buffer is compiled.
    Compile { reset: bool, start: usize, end: usize },
}

/// One worker's document buffer: the preamble of the document in hand,
/// followed by the text of the last card compiled.
pub struct CompileBuffer {
    current_file: Option<String>,
    base_length: usize,
    content_end: usize,
    preamble: Ghost<Seq<u8>>,
    text: Ghost<Seq<u8>>,
}

impl CompileBuffer {
    pub closed spec fn wf(&self) -> bool {
        &&& self.preamble@.len() == self.base_length
        &&& self.text@.len() == self.content_end
        &&& self.base_length <= self.content_end
        &&& self.text@.subrange(0, self.base_length as int) == self.preamble@
    }

    /// The bytes the buffer holds.
    pub closed spec fn text(&self) -> Seq<u8> {
        self.text@
    }

    /// The preamble the buffer starts with.
    pub closed spec fn preamble(&self) -> Seq<u8> {
        self.preamble@
    }

    /// The document whose preamble the buffer holds.
    pub closed spec fn file(&self) -> Option<Seq<char>> {
        match self.current_file {
            Some(f) => Some(f@),
            None => None,
        }
    }

    pub fn new() -> (r: Self)
        ensures
            r.wf(),
            r.file() is None,
            r.text() == Seq::<u8>::empty(),
    {
        let r = CompileBuffer {
            current_file: None,
            base_length: 0,
            content_end: 0,
            preamble: Ghost(Seq::empty()),
            text: Ghost(Seq::empty()),
        };
        assert(r.text@.subrange(0, 0) =~= r.preamble@);
        r
    }

    /// Plans the compilation of a card of document `file`, whose preamble is
    /// `base`. An unchanged card is skipped and leaves the buffer alone. A card
    /// of another document than the last one first resets the buffer to
    /// `base`; then the last card's bytes, which follow the preamble, are
    /// replaced by this card's, so the buffer holds the preamble and this card.
    pub fn next_card(
        &mut self,
        status: CardModificationStatus,
        file: &String,
        base: &str,
        content: &str,
    ) -> (r: BufferStep)
        requires
            old(self).wf(),
            base.spec_bytes().len() + content.spec_bytes().len() <= usize::MAX,
            old(self).preamble().len() + content.spec_bytes().len() <= usize::MAX,
        ensures
            final(self).wf(),
            status == CardModificationStatus::Unchanged ==> (r == BufferStep::Skip)
                && final(self).text() == old(self).text()
                && final(self).preamble() == old(self).preamble()
                && final(self).file() == old(self).file(),
            status != CardModificationStatus::Unchanged ==> match r {
                BufferStep::Compile { reset, start, end } => {
                    let prior = if reset {
                        base.spec_bytes()
                    } else {
                        old(self).text()
                    };
                    &&& reset == (old(self).file() != Some(file@))
                    &&& final(self).preamble() == if reset {
                        base.spec_bytes()
                    } else {
                        old(self).preamble()
                    }
                    &&& start == final(self).preamble().len()
                    &&& start <= end <= prior.len()
                    &&& final(self).text() == splice(prior, start as int, end as int, content.spec_bytes())
                    &&& final(self).text() == final(self).preamble() + content.spec_bytes()
                    &&& final(self).file() == Some(file@)
                },
                BufferStep::Skip => false,
            },
    {
        if status == CardModificationStatus::Unchanged {
            return BufferStep::Skip;
        }
        let same = match &self.current_file {
            Some(f) => *f == *file,
            None => false,
        };
        let reset = !same;
        if reset {
            self.current_file = Some(file.clone());
            self.base_length = base.len();
            self.content_end = base.len();
            self.preamble = Ghost(base.spec_bytes());
            self.text = Ghost(base.spec_bytes());
            assert(self.text@.subrange(0, self.base_length as int) =~= self.preamble@);
        }
        let start = self.base_length;
        let end = self.content_end;
        let ghost prior = self.text@;
        let ghost new_text = splice(prior, start as int, end as int, content.spec_bytes());
        assert(new_text =~= self.preamble@ + content.spec_bytes());
        self.text = Ghost(new_text);
        self.content_end = self.base_length + content.len();
        assert(self.text@.subrange(0, self.base_length as int) =~= self.preamble@);
        BufferStep::Compile { reset, start, end }
    }
}

/// The error of a compilation that gave fewer than two pages, the front and
/// the back.
pub fn page_count_error(pages: usize) -> (r: Option<String>)
    ensures
        pages >= 2 ==> r is None,
        pages < 2 ==> r is Some && r->0@ == "Error: Compiled document has less than 2 pages."@,
{
    if pages < 2 {
        Some(String::from_str("Error: Compiled document has less than 2 pages."))
    } else {
        None
    }
}

/// How a card's turn in the run ended.
#[derive(Debug, Clone, Copy, PartialEq, Eq, Structural)]
pub enum CardOutcome {
    /// Unchanged: nothing was done.
    Skipped,
    /// Compiled and stored.
    Uploaded,
    /// The compiler or the renderer failed.
    CompileFailed,
    /// The store refused the card or could not be reached.
    UploadFailed,
}

pub open spec fn is_failure(o: CardOutcome) -> bool {
    o == CardOutcome::CompileFailed || o == CardOutcome::UploadFailed
}

pub open spec fn card_key_of(c: CardInfo) -> Seq<char> {
    key_of(c.deck_name@, c.card_id@)
}

/// The failure of one card: its fingerprint is forgotten in both tables, so
/// the next run sees it as new, and the error is counted against its status
/// in its document's counters.
pub fn card_error(cards_cache_manager: &mut CardsCacheManager, stats: &mut TypFileStats, card: &CardInfo)
    requires
        old(cards_cache_manager).wf(),
        old(stats).new_cards.1 < usize::MAX,
        old(stats).updated_cards.1 < usize::MAX,
        old(stats).unchanged_cards.1 < usize::MAX,
    ensures
        final(cards_cache_manager).wf(),
        final(cards_cache_manager).static_hash == old(cards_cache_manager).static_hash,
        final(cards_cache_manager).old_cache@ == old(cards_cache_manager).old_cache@.remove(
            card_key_of(*card),
        ),
        final(cards_cache_manager).new_cache@ == old(cards_cache_manager).new_cache@.remove(
            card_key_of(*card),
        ),
        *final(stats) == old(stats).failed(card.modification_status),
{
    cards_cache_manager.remove_card_hash(card.deck_name.as_str(), card.card_id.as_str());
    stats.record_error(card.modification_status);
}

/// Applies the outcomes of a run to the fingerprint tables: every card that
/// failed to compile or upload loses its fingerprint in both tables; nothing
/// else changes.
pub fn apply_outcomes(mgr: &mut CardsCacheManager, cards: &Vec<CardInfo>, outcomes: &Vec<CardOutcome>)
    requires
        old(mgr).wf(),
        cards.len() == outcomes.len(),
    ensures
        final(mgr).wf(),
        final(mgr).static_hash == old(mgr).static_hash,
        forall|i: int|
            0 <= i < cards.len() && is_failure(#[trigger] outcomes[i])
                ==> !final(mgr).old_cache@.contains_key(card_key_of(cards[i]))
                && !final(mgr).new_cache@.contains_key(card_key_of(cards[i])),
        forall|k: Seq<char>|
            #[trigger] final(mgr).old_cache@.contains_key(k)
                ==> old(mgr).old_cache@.contains_key(k)
                && final(mgr).old_cache@[k] == old(mgr).old_cache@[k],
        forall|k: Seq<char>|
            #[trigger] final(mgr).new_cache@.contains_key(k)
                ==> old(mgr).new_cache@.contains_key(k)
                && final(mgr).new_cache@[k] == old(mgr).new_cache@[k],
        forall|k: Seq<char>|
            #[trigger] old(mgr).new_cache@.contains_key(k) && (forall|i: int|
                0 <= i < cards.len() && is_failure(outcomes[i])
                    ==> #[trigger] card_key_of(cards[i]) != k)
                ==> final(mgr).new_cache@.contains_key(k),
        forall|k: Seq<char>|
            #[trigger] old(mgr).old_cache@.contains_key(k) && (forall|i: int|
                0 <= i < cards.len() && is_failure(outcomes[i])
                    ==> #[trigger] card_key_of(cards[i]) != k)
                ==> final(mgr).old_cache@.contains_key(k),
{
    let mut n: usize = 0;
    while n < cards.len()
        invariant
            n <= cards.len() == outcomes.len(),
            mgr.wf(),
            mgr.static_hash == old(mgr).static_hash,
            forall|i: int|
                0 <= i < n && is_failure(#[trigger] outcomes[i])
                    ==> !mgr.old_cache@.contains_key(card_key_of(cards[i]))
                    && !mgr.new_cache@.contains_key(card_key_of(cards[i])),
            forall|k: Seq<char>|
                #[trigger] mgr.old_cache@.contains_key(k)
                    ==> old(mgr).old_cache@.contains_key(k)
                    && mgr.old_cache@[k] == old(mgr).old_cache@[k],
            forall|k: Seq<char>|
                #[trigger] mgr.new_cache@.contains_key(k)
                    ==> old(mgr).new_cache@.contains_key(k)
                    && mgr.new_cache@[k] == old(mgr).new_cache@[k],
            forall|k: Seq<char>|
                #[trigger] old(mgr).new_cache@.contains_key(k) && (forall|i: int|
                    0 <= i < n && is_failure(outcomes[i])
                        ==> #[trigger] card_key_of(cards[i]) != k)
                    ==> mgr.new_cache@.contains_key(k),
            forall|k: Seq<char>|
                #[trigger] old(mgr).old_cache@.contains_key(k) && (forall|i: int|
                    0 <= i < n && is_failure(outcomes[i])
                        ==> #[trigger] card_key_of(cards[i]) != k)
                    ==> mgr.old_cache@.contains_key(k),
        decreases cards.len() - n,
    {
        let o = outcomes[n];
        let ghost before = mgr.new_cache@;
        let ghost before_old = mgr.old_cache@;
        if o == CardOutcome::CompileFailed || o == CardOutcome::UploadFailed {
            let card = &cards[n];
            mgr.remove_card_hash(card.deck_name.as_str(), card.card_id.as_str());
        }
        proof {
            assert forall|k: Seq<char>|
                #[trigger] old(mgr).new_cache@.contains_key(k) && (forall|i: int|
                    0 <= i < n + 1 && is_failure(outcomes[i])
                        ==> #[trigger] card_key_of(cards[i]) != k)
                    implies mgr.new_cache@.contains_key(k) by {
                assert(before.contains_key(k));
                if is_failure(outcomes[n as int]) {
                    assert(card_key_of(cards[n as int]) != k);
                }
            }
            assert forall|k: Seq<char>|
                #[trigger] old(mgr).old_cache@.contains_key(k) && (forall|i: int|
                    0 <= i < n + 1 && is_failure(outcomes[i])
                        ==> #[trigger] card_key_of(cards[i]) != k)
                    implies mgr.old_cache@.contains_key(k) by {
                assert(before_old.contains_key(k));
                if is_failure(outcomes[n as int]) {
                    assert(card_key_of(cards[n as int]) != k);
                }
            }
        }
        n = n + 1;
    }
}

} // verus!

use vstd::prelude::*;

use crate::cache::CardModificationStatus;

verus! {

/// A count of cards and how many of them failed.
pub type CardCountPair = (usize, usize);

/// What one document contributed to a run.
#[derive(Debug, Clone, Copy)]
pub struct TypFileStats {
    pub total_cards: usize,
    pub new_cards: CardCountPair,
    pub updated_cards: CardCountPair,
    pub unchanged_cards: CardCountPair,
    pub empty_cards: usize,
    pub skipped_cards: usize,
}

impl TypFileStats {
    /// The counters after one more card of `status` was classified.
    pub open spec fn counted(self, status: CardModificationStatus) -> TypFileStats {
        match status {
            CardModificationStatus::New => TypFileStats {
                new_cards: ((self.new_cards.0 + 1) as usize, self.new_cards.1),
                ..self
            },
            CardModificationStatus::Updated => TypFileStats {
                updated_cards: ((self.updated_cards.0 + 1) as usize, self.updated_cards.1),
                ..self
            },
            CardModificationStatus::Unchanged => TypFileStats {
                unchanged_cards: ((self.unchanged_cards.0 + 1) as usize, self.unchanged_cards.1),
                ..self
            },
            CardModificationStatus::Unknown => self,
        }
    }

    /// The counters after one more card of `status` failed.
    pub open spec fn failed(self, status: CardModificationStatus) -> TypFileStats {
        match status {
            CardModificationStatus::New => TypFileStats {
                new_cards: (self.new_cards.0, (self.new_cards.1 + 1) as usize),
                ..self
            },
            CardModificationStatus::Updated => TypFileStats {
                updated_cards: (self.updated_cards.0, (self.updated_cards.1 + 1) as usize),
                ..self
            },
            CardModificationStatus::Unchanged => TypFileStats {
                unchanged_cards: (self.unchanged_cards.0, (self.unchanged_cards.1 + 1) as usize),
                ..self
            },
            CardModificationStatus::Unknown => self,
        }
    }

    pub open spec fn error_sum(self) -> int {
        self.new_cards.1 + self.updated_cards.1 + self.unchanged_cards.1
    }

    pub fn new(_filepath: &str) -> (r: Self)
        ensures
            r == (TypFileStats {
                total_cards: 0,
                new_cards: (0, 0),
                updated_cards: (0, 0),
                unchanged_cards: (0, 0),
                empty_cards: 0,
                skipped_cards: 0,
            }),
    {
        TypFileStats {
            total_cards: 0,
            new_cards: (0, 0),
            updated_cards: (0, 0),
            unchanged_cards: (0, 0),
            empty_cards: 0,
            skipped_cards: 0,
        }
    }

    pub fn total_errors(&self) -> (r: usize)
        requires
            self.error_sum() <= usize::MAX,
        ensures
            r == self.error_sum(),
    {
        self.new_cards.1 + self.updated_cards.1 + self.unchanged_cards.1
    }

    /// Counts one more classified card; its error counters stay as they are.
    pub fn record_status(&mut self, status: CardModificationStatus)
        requires
            old(self).new_cards.0 < usize::MAX,
            old(self).updated_cards.0 < usize::MAX,
            old(self).unchanged_cards.0 < usize::MAX,
        ensures
            *final(self) == old(self).counted(status),
            final(self).error_sum() == old(self).error_sum(),
    {
        match status {
            CardModificationStatus::New => self.new_cards.0 = self.new_cards.0 + 1,
            CardModificationStatus::Updated => self.updated_cards.0 = self.updated_cards.0 + 1,
            CardModificationStatus::Unchanged => self.unchanged_cards.0 = self.unchanged_cards.0
                + 1,
            CardModificationStatus::Unknown => {},
        }
    }

    /// Counts one more failed card of `status`.
    pub fn record_error(&mut self, status: CardModificationStatus)
        requires
            old(self).new_cards.1 < usize::MAX,
            old(self).updated_cards.1 < usize::MAX,
            old(self).unchanged_cards.1 < usize::MAX,
        ensures
            *final(self) == old(self).failed(status),
    {
        match status {
            CardModificationStatus::New => self.new_cards.1 = self.new_cards.1 + 1,
            CardModificationStatus::Updated => self.updated_cards.1 = self.updated_cards.1 + 1,
            CardModificationStatus::Unchanged => self.unchanged_cards.1 = self.unchanged_cards.1
                + 1,
            CardModificationStatus::Unknown => {},
        }
    }
}

} // verus!

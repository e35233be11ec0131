//! Result values the board engine hands back to callers, and the error kinds
//! of every operation.

use vstd::prelude::*;

use crate::field::FieldType;

verus! {

/// Everything that can go wrong in the board engine or the session around it.
#[derive(Clone, Copy, Eq, PartialEq, Structural, Debug)]
pub enum GameError {
    /// A numbered cell's value must lie in 1 to 8.
    InvalidValue,
    /// A coordinate lies outside the board.
    InvalidIndex,
    /// A given mine location lies outside the board, or is listed twice.
    InvalidMineLocations,
    /// The board would hold more cells than the size type can count.
    TooManyFields,
    /// More mines than cells minus one.
    TooManyMines,
    /// Fewer than one mine.
    TooFewMines,
    /// A mine has no mine-neighbor count of its own.
    MineHasNoValue,
    /// An opened cell's type may never change again.
    OpenedFieldCannotBeUpdated,
    /// No non-mine cell was reachable to take the relocated mine.
    NoRelocationTarget,
    /// The game has ended; no further moves are accepted.
    GameAlreadyStopped,
}

impl GameError {
    /// A short description for display by a front end.
    pub fn message(&self) -> &'static str {
        match self {
            GameError::InvalidValue => "Invalid value!",
            GameError::InvalidIndex => "Invalid index!",
            GameError::InvalidMineLocations => "Invalid mine locations!",
            GameError::TooManyFields => "Too much fields!",
            GameError::TooManyMines => "Too much mines!",
            GameError::TooFewMines => "Too few mines!",
            GameError::MineHasNoValue => "Mine does not have value!",
            GameError::OpenedFieldCannotBeUpdated => "An opened field can not be updated!",
            GameError::NoRelocationTarget => "No place to move the mine to!",
            GameError::GameAlreadyStopped => "Game is already stopped!",
        }
    }
}

/// The outcome of toggling a flag.
#[derive(Clone, Copy, Eq, PartialEq, Structural, Debug)]
pub enum FlagResult {
    Flagged,
    FlagRemoved,
    AlreadyOpened,
}

/// The outcome of an open or chord call for the board as a whole.
#[derive(Clone, Copy, Eq, PartialEq, Structural, Debug)]
pub enum OpenResult {
    Okay,
    IsFlagged,
    Boom,
    WINNER,
}

/// A mapping from coordinates to the `FieldType` that became visible there.
/// Keys are kept unique; entries are in the order they were recorded.
#[derive(Clone, Eq, PartialEq, Debug)]
pub struct OpenedFields {
    entries: Vec<((i64, i64), FieldType)>,
}

impl OpenedFields {
    /// The recorded coordinates, in insertion order.
    pub closed spec fn key_seq(self) -> Seq<(i64, i64)> {
        self.entries@.map_values(|e: ((i64, i64), FieldType)| e.0)
    }

    /// Whether a coordinate has an entry.
    pub open spec fn spec_contains(self, row: i64, col: i64) -> bool {
        self.key_seq().contains((row, col))
    }

    /// The type recorded for a coordinate (meaningful only when present).
    pub closed spec fn spec_at(self, row: i64, col: i64) -> FieldType {
        self.entries@[self.key_seq().index_of((row, col))].1
    }

    /// Keys are unique.
    pub closed spec fn wf(self) -> bool {
        self.key_seq().no_duplicates()
    }

    pub closed spec fn spec_len(self) -> nat {
        self.entries@.len()
    }

    pub fn new() -> (r: OpenedFields)
        ensures
            r.wf(),
            r.spec_len() == 0,
            forall|row: i64, col: i64| !r.spec_contains(row, col),
    {
        let r = OpenedFields { entries: Vec::new() };
        proof {
            assert(r.key_seq() =~= Seq::<(i64, i64)>::empty());
        }
        r
    }

    /// The number of entries, which equals the number of distinct recorded
    /// coordinates.
    pub fn len(&self) -> (r: usize)
        ensures
            r == self.spec_len(),
    {
        self.entries.len()
    }

    /// Record a coordinate not yet present.
    pub fn insert(&mut self, row: i64, col: i64, t: FieldType)
        requires
            old(self).wf(),
            !old(self).spec_contains(row, col),
        ensures
            final(self).wf(),
            final(self).spec_len() == old(self).spec_len() + 1,
            final(self).spec_contains(row, col),
            final(self).spec_at(row, col) == t,
            forall|r: i64, c: i64|
                (r, c) != (row, col) ==> final(self).spec_contains(r, c) == old(
                    self,
                ).spec_contains(r, c),
            forall|r: i64, c: i64|
                (r, c) != (row, col) && old(self).spec_contains(r, c) ==> final(self).spec_at(r, c)
                    == old(self).spec_at(r, c),
    {
        self.entries.push(((row, col), t));
        proof {
            let olds = old(self).key_seq();
            let news = self.key_seq();
            assert(news =~= olds.push((row, col)));
            assert forall|r: i64, c: i64| (r, c) != (row, col) implies self.spec_contains(r, c)
                == old(self).spec_contains(r, c) by {
                if olds.contains((r, c)) {
                    let i = choose|i: int| 0 <= i < olds.len() && olds[i] == (r, c);
                    assert(news[i] == (r, c));
                }
                if news.contains((r, c)) {
                    let i = choose|i: int| 0 <= i < news.len() && news[i] == (r, c);
                    assert(i < olds.len() && olds[i] == (r, c));
                }
            }
            assert forall|r: i64, c: i64|
                (r, c) != (row, col) && old(self).spec_contains(r, c) implies self.spec_at(r, c)
                == old(self).spec_at(r, c) by {
                let i = olds.index_of((r, c));
                assert(news[i] == (r, c));
                assert(news.index_of((r, c)) == i) by {
                    let j = news.index_of((r, c));
                    if j != i {
                        assert(news[j] == news[i]);
                        assert(!news.no_duplicates());
                    }
                }
            }
            let i = news.len() - 1;
            assert(news[i] == (row, col));
            assert(news.index_of((row, col)) == i) by {
                let j = news.index_of((row, col));
                if j != i {
                    assert(news[j] == news[i]);
                    assert(!news.no_duplicates());
                }
            }
        }
    }

    /// Look a coordinate up.
    pub fn get(&self, row: i64, col: i64) -> (r: Option<FieldType>)
        requires
            self.wf(),
        ensures
            self.spec_contains(row, col) ==> r == Some(self.spec_at(row, col)),
            !self.spec_contains(row, col) ==> r is None,
    {
        let n = self.entries.len();
        let mut i: usize = 0;
        while i < n
            invariant
                0 <= i <= n,
                n == self.entries@.len(),
                self.wf(),
                forall|j: int| 0 <= j < i ==> self.entries@[j].0 != (row, col),
            decreases n - i,
        {
            let e = self.entries[i];
            if e.0 .0 == row && e.0 .1 == col {
                proof {
                    assert(self.key_seq()[i as int] == (row, col));
                    let k = self.key_seq().index_of((row, col));
                    if k != i {
                        assert(self.key_seq()[k] == self.key_seq()[i as int]);
                        assert(!self.key_seq().no_duplicates());
                    }
                }
                return Some(e.1);
            }
            i = i + 1;
        }
        proof {
            if self.spec_contains(row, col) {
                let k = choose|k: int|
                    0 <= k < self.key_seq().len() && self.key_seq()[k] == (row, col);
                assert(self.entries@[k].0 == (row, col));
            }
        }
        None
    }
}

/// A mapping that holds no coordinate has no entries.
pub proof fn lemma_no_keys_empty(m: OpenedFields)
    requires
        forall|row: i64, col: i64| !m.spec_contains(row, col),
    ensures
        m.spec_len() == 0,
{
    if m.spec_len() > 0 {
        let k = m.key_seq()[0];
        assert(m.key_seq().contains(k));
        assert(m.spec_contains(k.0, k.1));
    }
}

/// What an open or chord call did: the overall result, plus every cell whose
/// type became visible.
#[derive(Clone, Eq, PartialEq, Debug)]
pub struct OpenInfo {
    pub result: OpenResult,
    pub newly_opened_fields: OpenedFields,
}

} // verus!

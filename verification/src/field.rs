//! Single-cell state: what a cell is (`FieldType`), what the player has done
//! to it (`FieldState`), and the transitions a cell admits.

use vstd::prelude::*;

use crate::results::{FlagResult, GameError};

verus! {

/// What the player has done to a cell. `Opened` is terminal: once a cell is
/// opened its type may never change again.
#[derive(Clone, Copy, Eq, PartialEq, Structural, Debug)]
pub enum FieldState {
    Closed,
    Opened,
    Flagged,
}

/// What a cell is: empty, numbered with the count of adjacent mines, or a mine.
#[derive(Clone, Copy, Eq, PartialEq, Structural, Debug)]
pub enum FieldType {
    Empty,
    Numbered(u8),
    Mine,
}

/// A cell as the caller may see it: the state, and the type only when opened.
#[derive(Clone, Copy, Eq, PartialEq, Structural, Debug)]
pub struct FieldInfo {
    pub state: FieldState,
    pub field_type: FieldType,
}

/// The outcome of opening one cell in isolation.
#[derive(Clone, Copy, Eq, PartialEq, Structural, Debug)]
pub enum FieldOpenResult {
    AlreadyOpened,
    SimpleOpen,
    MultiOpen,
    Boom,
    IsFlagged,
}

impl FieldState {
    pub fn is_opened(&self) -> (r: bool)
        ensures
            r == (*self is Opened),
    {
        *self == FieldState::Opened
    }

    pub fn is_flagged(&self) -> (r: bool)
        ensures
            r == (*self is Flagged),
    {
        *self == FieldState::Flagged
    }
}

impl FieldType {
    pub fn is_empty(&self) -> (r: bool)
        ensures
            r == (*self is Empty),
    {
        *self == FieldType::Empty
    }

    pub fn is_mine(&self) -> (r: bool)
        ensures
            r == (*self is Mine),
    {
        *self == FieldType::Mine
    }

    pub fn is_numbered(&self) -> (r: bool)
        ensures
            r == (*self is Numbered),
    {
        match self {
            FieldType::Numbered(_) => true,
            _ => false,
        }
    }

    /// The character a terminal front end prints for a revealed cell.
    pub fn get_char_repr(&self) -> (r: char)
        requires
            self is Numbered ==> 1 <= self->Numbered_0 <= 8,
        ensures
            *self is Empty ==> r == ' ',
            *self is Mine ==> r == 'X',
            *self is Numbered ==> r == spec_digit_char(self->Numbered_0 as int),
    {
        match self {
            FieldType::Empty => ' ',
            FieldType::Mine => 'X',
            FieldType::Numbered(x) => {
                if *x == 1 { '1' }
                else if *x == 2 { '2' }
                else if *x == 3 { '3' }
                else if *x == 4 { '4' }
                else if *x == 5 { '5' }
                else if *x == 6 { '6' }
                else if *x == 7 { '7' }
                else { '8' }
            }
        }
    }
}

/// The decimal digit character for a mine-neighbor count.
pub open spec fn spec_digit_char(v: int) -> char {
    if v == 1 { '1' }
    else if v == 2 { '2' }
    else if v == 3 { '3' }
    else if v == 4 { '4' }
    else if v == 5 { '5' }
    else if v == 6 { '6' }
    else if v == 7 { '7' }
    else { '8' }
}

/// One grid position: a `FieldType` combined with a `FieldState`.
#[derive(Clone, Copy, Eq, PartialEq, Structural, Debug)]
pub struct FieldInner {
    pub field_info: FieldInfo,
}

impl FieldInner {
    /// A numbered cell's value must be a count of adjacent mines: 1 to 8.
    pub fn is_valid_value(value: u8) -> (r: bool)
        ensures
            r == (1 <= value <= 8),
    {
        value > 0 && value < 9
    }

    pub fn new_with_field_type(field_type: FieldType) -> (r: FieldInner)
        ensures
            r.field_info.state is Closed,
            r.field_info.field_type == field_type,
    {
        FieldInner { field_info: FieldInfo { state: FieldState::Closed, field_type } }
    }

    pub fn new_mine() -> (r: FieldInner)
        ensures
            r.field_info.state is Closed,
            r.field_info.field_type is Mine,
    {
        FieldInner::new_with_field_type(FieldType::Mine)
    }

    pub fn new_empty() -> (r: FieldInner)
        ensures
            r.field_info.state is Closed,
            r.field_info.field_type is Empty,
    {
        FieldInner::new_with_field_type(FieldType::Empty)
    }

    /// Fails with `InvalidValue` exactly when the value is outside 1 to 8.
    pub fn new_numbered(value: u8) -> (r: Result<FieldInner, GameError>)
        ensures
            1 <= value <= 8 ==> r == Ok::<FieldInner, GameError>(
                FieldInner {
                    field_info: FieldInfo {
                        state: FieldState::Closed,
                        field_type: FieldType::Numbered(value),
                    },
                },
            ),
            !(1 <= value <= 8) ==> r == Err::<FieldInner, GameError>(GameError::InvalidValue),
    {
        if !FieldInner::is_valid_value(value) {
            Err(GameError::InvalidValue)
        } else {
            Ok(FieldInner::new_with_field_type(FieldType::Numbered(value)))
        }
    }

    /// Fails exactly when the cell is already opened; otherwise the type
    /// becomes `Mine` and the state is kept.
    pub fn update_type_to_mine(&mut self) -> (r: Result<(), GameError>)
        ensures
            old(self).field_info.state is Opened ==> r == Err::<(), GameError>(
                GameError::OpenedFieldCannotBeUpdated,
            ) && *final(self) == *old(self),
            !(old(self).field_info.state is Opened) ==> r == Ok::<(), GameError>(())
                && final(self).field_info.state == old(self).field_info.state
                && final(self).field_info.field_type is Mine,
    {
        if self.field_info.state == FieldState::Opened {
            Err(GameError::OpenedFieldCannotBeUpdated)
        } else {
            self.field_info.field_type = FieldType::Mine;
            Ok(())
        }
    }

    /// Fails exactly when the cell is already opened; otherwise the type
    /// becomes `Empty` and the state is kept.
    pub fn update_type_to_empty(&mut self) -> (r: Result<(), GameError>)
        ensures
            old(self).field_info.state is Opened ==> r == Err::<(), GameError>(
                GameError::OpenedFieldCannotBeUpdated,
            ) && *final(self) == *old(self),
            !(old(self).field_info.state is Opened) ==> r == Ok::<(), GameError>(())
                && final(self).field_info.state == old(self).field_info.state
                && final(self).field_info.field_type is Empty,
    {
        if self.field_info.state == FieldState::Opened {
            Err(GameError::OpenedFieldCannotBeUpdated)
        } else {
            self.field_info.field_type = FieldType::Empty;
            Ok(())
        }
    }

    /// Fails when the cell is already opened or the value is invalid;
    /// otherwise the type becomes `Numbered(value)` and the state is kept.
    pub fn update_type_with_value(&mut self, value: u8) -> (r: Result<(), GameError>)
        ensures
            old(self).field_info.state is Opened ==> r == Err::<(), GameError>(
                GameError::OpenedFieldCannotBeUpdated,
            ) && *final(self) == *old(self),
            !(old(self).field_info.state is Opened) && !(1 <= value <= 8) ==> r == Err::<
                (),
                GameError,
            >(GameError::InvalidValue) && *final(self) == *old(self),
            !(old(self).field_info.state is Opened) && 1 <= value <= 8 ==> r == Ok::<
                (),
                GameError,
            >(()) && final(self).field_info.state == old(self).field_info.state
                && final(self).field_info.field_type == FieldType::Numbered(value),
    {
        if self.field_info.state == FieldState::Opened {
            Err(GameError::OpenedFieldCannotBeUpdated)
        } else if !FieldInner::is_valid_value(value) {
            Err(GameError::InvalidValue)
        } else {
            self.field_info.field_type = FieldType::Numbered(value);
            Ok(())
        }
    }

    /// The open outcome dictated by the cell's type alone.
    pub fn get_open_result_inner(&self) -> (r: FieldOpenResult)
        ensures
            r == spec_open_result_of(self.field_info.field_type),
    {
        match self.field_info.field_type {
            FieldType::Empty => FieldOpenResult::MultiOpen,
            FieldType::Numbered(_) => FieldOpenResult::SimpleOpen,
            FieldType::Mine => FieldOpenResult::Boom,
        }
    }

    /// Open the cell. Flagged cells are protected and already-opened cells
    /// are a no-op; otherwise the cell becomes `Opened` and the result is
    /// derived from its type.
    pub fn open(&mut self) -> (r: FieldOpenResult)
        ensures
            old(self).field_info.state is Flagged ==> r == FieldOpenResult::IsFlagged && *final(self) == *old(self),
            old(self).field_info.state is Opened ==> r == FieldOpenResult::AlreadyOpened && *final(self) == *old(self),
            old(self).field_info.state is Closed ==> r == spec_open_result_of(
                old(self).field_info.field_type,
            ) && final(self).field_info.state is Opened && final(self).field_info.field_type == old(self).field_info.field_type,
    {
        if self.field_info.state.is_flagged() {
            FieldOpenResult::IsFlagged
        } else if self.field_info.state.is_opened() {
            FieldOpenResult::AlreadyOpened
        } else {
            self.field_info.state = FieldState::Opened;
            self.get_open_result_inner()
        }
    }

    /// Toggle the flag: Flagged and Closed exchange; an opened cell is
    /// reported as `AlreadyOpened` and left unchanged.
    pub fn toggle_flag(&mut self) -> (r: FlagResult)
        ensures
            old(self).field_info.state is Flagged ==> r == FlagResult::FlagRemoved && final(self).field_info.state is Closed,
            old(self).field_info.state is Closed ==> r == FlagResult::Flagged && final(self).field_info.state is Flagged,
            old(self).field_info.state is Opened ==> r == FlagResult::AlreadyOpened && *final(self)
                == *old(self),
            final(self).field_info.field_type == old(self).field_info.field_type,
    {
        if self.field_info.state.is_flagged() {
            self.field_info.state = FieldState::Closed;
            FlagResult::FlagRemoved
        } else {
            if !self.field_info.state.is_opened() {
                self.field_info.state = FieldState::Flagged;
                FlagResult::Flagged
            } else {
                FlagResult::AlreadyOpened
            }
        }
    }

    pub fn get_field_state(&self) -> (r: FieldState)
        ensures
            r == self.field_info.state,
    {
        self.field_info.state
    }

    pub fn get_field_type(&self) -> (r: FieldType)
        ensures
            r == self.field_info.field_type,
    {
        self.field_info.field_type
    }

    /// The caller-facing view of the cell: the type is hidden (reported as
    /// `Empty`) unless the cell is opened.
    pub fn get_public_field_info(&self) -> (r: FieldInfo)
        ensures
            r.state == self.field_info.state,
            self.field_info.state is Opened ==> r.field_type == self.field_info.field_type,
            !(self.field_info.state is Opened) ==> r.field_type is Empty,
    {
        match self.field_info.state {
            FieldState::Opened => self.field_info,
            state => FieldInfo { state, field_type: FieldType::Empty },
        }
    }
}

/// The open outcome a cell's type dictates: empty cells cascade, numbered
/// cells open alone, mines end the game.
pub open spec fn spec_open_result_of(t: FieldType) -> FieldOpenResult {
    match t {
        FieldType::Empty => FieldOpenResult::MultiOpen,
        FieldType::Numbered(_) => FieldOpenResult::SimpleOpen,
        FieldType::Mine => FieldOpenResult::Boom,
    }
}

} // verus!

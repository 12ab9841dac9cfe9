//! The ways in which a board text can be refused.
use crate::text::push_char;
use vstd::prelude::*;

verus! {

/// Why a board text is no board.
#[derive(Clone, Copy, Debug, PartialEq, Eq, Structural)]
pub enum BoardError {
    /// A character that is no tile symbol.
    InvalidCharacter(char),
    /// No row at all, or a row without a cell.
    InvalidSize,
    /// The Minotaur does not occur.
    NoMinotaur,
    /// Theseus does not occur.
    NoTheseus,
    /// The goal does not occur.
    NoGoal,
    /// The Minotaur occurs twice.
    MultipleMinotaur,
    /// Theseus occurs twice.
    MultipleTheseus,
    /// The goal occurs twice.
    MultipleGoal,
}

impl BoardError {
    /// The text that describes the error to a reader.
    pub open spec fn message_text(self) -> Seq<char> {
        match self {
            BoardError::InvalidCharacter(ch) => "Invalid character: "@.push(ch),
            BoardError::InvalidSize => "Invalid size"@,
            BoardError::NoMinotaur => "No minotaur"@,
            BoardError::NoTheseus => "No theseus"@,
            BoardError::NoGoal => "No goal"@,
            BoardError::MultipleMinotaur => "Multiple minotaur"@,
            BoardError::MultipleTheseus => "Multiple theseus"@,
            BoardError::MultipleGoal => "Multiple goal"@,
        }
    }

    /// Describes the error in words.
    pub fn message(&self) -> (text: String)
        ensures
            text@ == self.message_text(),
    {
        match self {
            BoardError::InvalidCharacter(ch) => {
                let mut text = "Invalid character: ".to_owned();
                push_char(&mut text, *ch);
                text
            },
            BoardError::InvalidSize => "Invalid size".to_owned(),
            BoardError::NoMinotaur => "No minotaur".to_owned(),
            BoardError::NoTheseus => "No theseus".to_owned(),
            BoardError::NoGoal => "No goal".to_owned(),
            BoardError::MultipleMinotaur => "Multiple minotaur".to_owned(),
            BoardError::MultipleTheseus => "Multiple theseus".to_owned(),
            BoardError::MultipleGoal => "Multiple goal".to_owned(),
        }
    }
}

} // verus!

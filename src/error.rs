//! What can go wrong while handling a command.

use vstd::prelude::*;

verus! {

/// An error shown to the player in place of a reply.
#[derive(Debug)]
pub enum RollError {
    /// An `=` override (or a stat value) that is not an integer; holds the text.
    Parse(String),
    /// Hope and despair were both asked for.
    Conflict,
    /// No character was named and the user has chosen no default.
    NoCharacterChosen,
    /// No character goes by this name.
    CharacterNotFound(String),
    /// The character has no value for the stat.
    StatNotSet { stat: String, character: String },
    /// No move goes by this name.
    MoveNotFound(String),
    /// A character by this name exists already.
    CharacterExists(String),
    /// A required argument of a command is missing; holds what is missing.
    Missing(String),
    /// The total of a roll does not fit in an `i32`.
    Overflow,
}

/// The model of a [`RollError`], with text as character sequences.
pub enum Failure {
    Parse(Seq<char>),
    Conflict,
    NoCharacterChosen,
    CharacterNotFound(Seq<char>),
    StatNotSet { stat: Seq<char>, character: Seq<char> },
    MoveNotFound(Seq<char>),
    CharacterExists(Seq<char>),
    Missing(Seq<char>),
    Overflow,
}

impl View for RollError {
    type V = Failure;

    open spec fn view(&self) -> Failure {
        match self {
            RollError::Parse(t) => Failure::Parse(t@),
            RollError::Conflict => Failure::Conflict,
            RollError::NoCharacterChosen => Failure::NoCharacterChosen,
            RollError::CharacterNotFound(n) => Failure::CharacterNotFound(n@),
            RollError::StatNotSet { stat, character } => Failure::StatNotSet {
                stat: stat@,
                character: character@,
            },
            RollError::MoveNotFound(n) => Failure::MoveNotFound(n@),
            RollError::CharacterExists(n) => Failure::CharacterExists(n@),
            RollError::Missing(w) => Failure::Missing(w@),
            RollError::Overflow => Failure::Overflow,
        }
    }
}

/// The model of a result whose error is a [`RollError`].
pub open spec fn result_view<T: View>(r: Result<T, RollError>) -> Result<T::V, Failure> {
    match r {
        Ok(v) => Ok(v@),
        Err(e) => Err(e@),
    }
}

/// The text shown to the player for an error.
pub open spec fn failure_message(f: Failure) -> Seq<char> {
    match f {
        Failure::Parse(t) => "Invalid number: "@ + t,
        Failure::Conflict => "You can't roll with advantage AND disadvantage!"@,
        Failure::NoCharacterChosen => "No character chosen"@,
        Failure::CharacterNotFound(n) => "Character "@ + n + " not found"@,
        Failure::StatNotSet { stat, character } => "Stat "@ + stat + " not set for character "@
            + character,
        Failure::MoveNotFound(n) => "Move "@ + n + " not found"@,
        Failure::CharacterExists(n) => "Character "@ + n + " already exists"@,
        Failure::Missing(w) => w,
        Failure::Overflow => "The total of the roll is out of range"@,
    }
}

impl RollError {
    /// The text shown to the player for this error.
    pub fn message(&self) -> (r: String)
        ensures
            r@ == failure_message(self@),
    {
        match self {
            RollError::Parse(t) => {
                let mut m = String::from_str("Invalid number: ");
                m.append(t.as_str());
                m
            },
            RollError::Conflict => String::from_str("You can't roll with advantage AND disadvantage!"),
            RollError::NoCharacterChosen => String::from_str("No character chosen"),
            RollError::CharacterNotFound(n) => {
                let mut m = String::from_str("Character ");
                m.append(n.as_str());
                m.append(" not found");
                m
            },
            RollError::StatNotSet { stat, character } => {
                let mut m = String::from_str("Stat ");
                m.append(stat.as_str());
                m.append(" not set for character ");
                m.append(character.as_str());
                m
            },
            RollError::MoveNotFound(n) => {
                let mut m = String::from_str("Move ");
                m.append(n.as_str());
                m.append(" not found");
                m
            },
            RollError::CharacterExists(n) => {
                let mut m = String::from_str("Character ");
                m.append(n.as_str());
                m.append(" already exists");
                m
            },
            RollError::Missing(w) => w.clone(),
            RollError::Overflow => String::from_str("The total of the roll is out of range"),
        }
    }
}

} // verus!

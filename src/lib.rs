//! Dice resolution for a narrative tabletop game played over chat: a parser
//! for modifier tokens, a roll resolver with hope/despair dice and manual
//! overrides, and a compiler that renders a roll against a move's outcome
//! bands. The character and move stores are held in memory; the caller
//! loads and saves them.

pub mod authoring;
pub mod characters;
pub mod commands;
pub mod error;
pub mod moves;
pub mod parameters;
pub mod roll;
pub mod table;
pub mod text;

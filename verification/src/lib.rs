//! A small domain library for textual playing-card descriptions and
//! five-card poker hand classification.
//!
//! Raw text is split into alphanumeric tokens, each token is read as a card
//! (rank and suit in either order, upper or lower case), and a sequence of
//! cards is classified into a poker hand category by duplicate counting and
//! a positional scan for straights.

pub mod cards;
pub mod hands;
pub mod suites;
pub mod values;

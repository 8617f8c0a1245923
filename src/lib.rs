//! A word-guessing aid: a grid of guesses whose letters are judged as missing,
//! present elsewhere or in place, and a filter that narrows a word list to the
//! words consistent with those judgements.

pub mod letter;
pub mod grid;
pub mod constraints;
pub mod dictionary;
pub mod filter;
pub mod searcher;

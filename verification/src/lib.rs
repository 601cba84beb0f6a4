//! A flashcard library: decks of numbered cards, slices of them, JSON imports
//! and LLM story replies, and spaced repetition with an SM-2 style scheduler.
//!
//! Storage, the clock and serialisation for a frontend are left to the
//! application; everything here is a function of its arguments.

pub mod categories;
pub mod cards;
pub mod decks;
pub mod error;
pub mod json;
pub mod models;
pub mod order;
pub mod prompts;
pub mod sr;
pub mod srs;
pub mod text;

//! Decks: their names and their kinds.
use vstd::prelude::*;

use crate::error::{invalid_with, Error};
use crate::models::{kind_named, DeckKind};
use crate::text::{blank, is_blank, trim_owned, trimmed};

verus! {

/// The name a deck is created or renamed with: trimmed, and not empty.
pub fn deck_name(name: &str) -> (r: Result<String, Error>)
    ensures
        is_blank(name@) ==> r is Err && invalid_with(r->Err_0, "deck name cannot be empty"@),
        !is_blank(name@) ==> r is Ok && r->Ok_0@ == trimmed(name@),
{
    if blank(name) {
        Err(Error::invalid("deck name cannot be empty"))
    } else {
        Ok(trim_owned(name))
    }
}

/// The error for a deck of the wrong kind, by the kind that was expected.
pub open spec fn wrong_kind_message(expected: DeckKind) -> Seq<char> {
    match expected {
        DeckKind::Normal => "that is a spaced repetition deck"@,
        DeckKind::Sr => "that is not a spaced repetition deck"@,
    }
}

/// Fails unless a deck whose stored kind is `actual` has the kind `kind`, so
/// that e.g. cards are never added directly to a spaced repetition deck.
pub fn require_kind(actual: &str, kind: DeckKind) -> (r: Result<(), Error>)
    ensures
        kind_named(actual@) == kind ==> r is Ok,
        kind_named(actual@) != kind ==> r is Err && invalid_with(
            r->Err_0,
            wrong_kind_message(kind),
        ),
{
    if DeckKind::parse(actual) != kind {
        return Err(
            Error::invalid(
                match kind {
                    DeckKind::Normal => "that is a spaced repetition deck",
                    DeckKind::Sr => "that is not a spaced repetition deck",
                },
            ),
        );
    }
    Ok(())
}

} // verus!

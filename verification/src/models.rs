//! The records the library works on.
use vstd::prelude::*;

use crate::text::str_eq;

verus! {

#[derive(Debug, Clone)]
pub struct Category {
    pub id: i64,
    pub name: String,
    pub position: i64,
}

#[derive(Debug, Clone, Copy, PartialEq, Eq, Structural)]
pub enum DeckKind {
    Normal,
    Sr,
}

/// The name a deck kind is stored under.
pub open spec fn kind_name(k: DeckKind) -> Seq<char> {
    match k {
        DeckKind::Normal => "normal"@,
        DeckKind::Sr => "sr"@,
    }
}

/// The deck kind a stored name stands for; anything but `sr` reads as normal.
pub open spec fn kind_named(name: Seq<char>) -> DeckKind {
    if name == "sr"@ {
        DeckKind::Sr
    } else {
        DeckKind::Normal
    }
}

impl DeckKind {
    pub fn as_str(self) -> (s: &'static str)
        ensures
            s@ == kind_name(self),
    {
        match self {
            DeckKind::Normal => "normal",
            DeckKind::Sr => "sr",
        }
    }

    pub fn parse(value: &str) -> (k: DeckKind)
        ensures
            k == kind_named(value@),
    {
        if str_eq(value, "sr") {
            DeckKind::Sr
        } else {
            DeckKind::Normal
        }
    }
}

/// Reading back the name of a deck kind gives the kind.
pub proof fn law_kind_name_round_trip(k: DeckKind)
    ensures
        kind_named(kind_name(k)) == k,
{
    reveal_strlit("normal");
    reveal_strlit("sr");
    assert("normal"@.len() == 6 && "sr"@.len() == 2);
}

#[derive(Debug, Clone)]
pub struct Deck {
    pub id: i64,
    pub category_id: Option<i64>,
    pub category_name: Option<String>,
    pub name: String,
    pub description: String,
    pub kind: DeckKind,
    pub position: i64,
    pub created_at: String,
    /// Cards owned by the deck, or referenced by it when it is an SR deck.
    pub card_count: i64,
    /// SR decks only: cards that are due right now.
    pub due_count: i64,
    /// SR decks only: cards that have never been reviewed.
    pub new_count: i64,
    /// SR decks only: the permanent daily cap on new cards.
    pub new_per_day: i64,
    /// SR decks only: the permanent daily cap on reviews.
    pub review_per_day: i64,
}

#[derive(Debug, Clone)]
pub struct Card {
    pub id: i64,
    pub deck_id: i64,
    /// Position of the card inside its deck, 1-based.
    pub idx: i64,
    pub front: String,
    pub back: String,
    pub comment: String,
    pub story: String,
}

impl Card {
    /// A copy of the card.
    pub fn copy(&self) -> (c: Card)
        ensures
            c == *self,
    {
        Card {
            id: self.id,
            deck_id: self.deck_id,
            idx: self.idx,
            front: self.front.clone(),
            back: self.back.clone(),
            comment: self.comment.clone(),
            story: self.story.clone(),
        }
    }
}

/// A whole deck, or an inclusive slice of one by card index. Used both for
/// building SR decks and for picking the cards a story prompt covers.
#[derive(Debug, Clone, Copy, PartialEq, Eq, Structural)]
pub struct CardSelection {
    pub deck_id: i64,
    pub from_index: Option<i64>,
    pub to_index: Option<i64>,
}

#[derive(Debug, Clone)]
pub struct StoryPrompt {
    pub id: i64,
    pub name: String,
    pub prompt: String,
    pub created_at: String,
}

#[derive(Debug, Clone, Copy, PartialEq, Eq, Structural)]
pub struct SrDeckStats {
    pub total: i64,
    pub due: i64,
    pub new: i64,
    pub learning: i64,
    pub review: i64,
    pub reviewed_today: i64,
    pub new_per_day: i64,
    pub review_per_day: i64,
    pub new_remaining_today: i64,
    pub review_remaining_today: i64,
}

} // verus!

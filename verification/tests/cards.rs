use flashcards::cards::{
    card_text, cards_in_selection, export_text, extract_array, plan_import, strip_fence, ImportCard,
};
use flashcards::error::Error;
use flashcards::models::{Card, CardSelection};
use flashcards::order::{move_within_deck, renumber, CardPos};

/// The five cards "card 1" .. "card 5" of deck 1, with ids and indices 1..5.
fn seeded() -> Vec<Card> {
    (1..=5)
        .map(|i| Card {
            id: i,
            deck_id: 1,
            idx: i,
            front: format!("card {i}"),
            back: String::new(),
            comment: String::new(),
            story: String::new(),
        })
        .collect()
}

fn positions(cards: &[Card]) -> Vec<CardPos> {
    cards.iter().map(|c| CardPos { id: c.id, idx: c.idx }).collect()
}

/// The fronts of the deck in the order the new positions put them.
fn fronts(cards: &[Card], new_positions: &[CardPos]) -> Vec<String> {
    let mut ordered: Vec<(i64, String)> = new_positions
        .iter()
        .map(|p| {
            let card = cards.iter().find(|c| c.id == p.id).unwrap();
            (p.idx, card.front.clone())
        })
        .collect();
    ordered.sort();
    ordered.into_iter().map(|(_, front)| front).collect()
}

fn apply(cards: &mut [Card], new_positions: &[CardPos]) {
    for p in new_positions {
        cards.iter_mut().find(|c| c.id == p.id).unwrap().idx = p.idx;
    }
}

#[test]
fn a_slice_covers_an_inclusive_range() {
    let deck = seeded();
    let selection = CardSelection {
        deck_id: 1,
        from_index: Some(2),
        to_index: Some(4),
    };
    let picked = cards_in_selection(&deck, &selection).unwrap();
    assert_eq!(picked.iter().map(|c| c.idx).collect::<Vec<_>>(), [2, 3, 4]);

    let whole = cards_in_selection(
        &deck,
        &CardSelection {
            deck_id: 1,
            from_index: None,
            to_index: None,
        },
    )
    .unwrap();
    assert_eq!(whole.len(), 5);
}

#[test]
fn a_slice_that_ends_before_it_starts_is_refused() {
    let deck = seeded();
    let selection = CardSelection {
        deck_id: 1,
        from_index: Some(4),
        to_index: Some(2),
    };
    assert_eq!(
        cards_in_selection(&deck, &selection).unwrap_err(),
        Error::Invalid("slice starts after it ends".into())
    );
    let other_deck = CardSelection {
        deck_id: 2,
        from_index: None,
        to_index: None,
    };
    assert!(cards_in_selection(&deck, &other_deck).unwrap().is_empty());
}

#[test]
fn renumber_closes_gaps() {
    let deck: Vec<Card> = seeded().into_iter().filter(|c| c.idx != 2 && c.idx != 4).collect();
    let renumbered = renumber(&positions(&deck));
    let mut indices: Vec<i64> = renumbered.iter().map(|p| p.idx).collect();
    indices.sort();
    assert_eq!(indices, [1, 2, 3]);
    assert_eq!(fronts(&deck, &renumbered), ["card 1", "card 3", "card 5"]);
}

#[test]
fn renumber_orders_ties_by_id_and_keeps_a_numbered_deck() {
    let cards = vec![
        CardPos { id: 7, idx: 3 },
        CardPos { id: 2, idx: 3 },
        CardPos { id: 5, idx: -1 },
    ];
    assert_eq!(
        renumber(&cards),
        [
            CardPos { id: 7, idx: 3 },
            CardPos { id: 2, idx: 2 },
            CardPos { id: 5, idx: 1 },
        ]
    );
    let numbered = positions(&seeded());
    assert_eq!(renumber(&numbered), numbered);
    assert_eq!(renumber(&renumber(&cards)), renumber(&cards));
}

#[test]
fn renumber_gives_distinct_indices_even_to_repeated_entries() {
    let cards = vec![
        CardPos { id: 4, idx: 9 },
        CardPos { id: 4, idx: 9 },
        CardPos { id: 1, idx: 9 },
    ];
    let once = renumber(&cards);
    assert_eq!(
        once,
        [
            CardPos { id: 4, idx: 2 },
            CardPos { id: 4, idx: 3 },
            CardPos { id: 1, idx: 1 },
        ]
    );
    assert_eq!(renumber(&once), once);
}

#[test]
fn moving_a_card_backwards_shifts_the_others() {
    let deck = seeded();
    let moved = move_within_deck(&positions(&deck), 4, 1).unwrap();
    assert_eq!(
        fronts(&deck, &moved),
        ["card 4", "card 1", "card 2", "card 3", "card 5"]
    );
}

#[test]
fn moving_a_card_forwards_shifts_the_others() {
    let deck = seeded();
    let moved = move_within_deck(&positions(&deck), 2, 5).unwrap();
    assert_eq!(
        fronts(&deck, &moved),
        ["card 1", "card 3", "card 4", "card 5", "card 2"]
    );
}

#[test]
fn moving_out_of_range_clamps_to_the_deck() {
    let mut deck = seeded();
    let moved = move_within_deck(&positions(&deck), 3, 99).unwrap();
    assert_eq!(fronts(&deck, &moved).last().unwrap(), "card 3");
    apply(&mut deck, &moved);
    let moved = move_within_deck(&positions(&deck), 3, -5).unwrap();
    assert_eq!(fronts(&deck, &moved).first().unwrap(), "card 3");
}

#[test]
fn moving_a_missing_card_is_refused() {
    let deck = seeded();
    assert_eq!(
        move_within_deck(&positions(&deck), 42, 1).unwrap_err(),
        Error::Invalid("card not found".into())
    );
    // Staying in place changes nothing.
    assert_eq!(
        move_within_deck(&positions(&deck), 3, 3).unwrap(),
        positions(&deck)
    );
}

#[test]
fn strips_markdown_fences() {
    assert_eq!(strip_fence("```json\n[1]\n```"), "[1]");
    assert_eq!(strip_fence("```\n[1]\n```"), "[1]");
    assert_eq!(strip_fence("  [1]  "), "[1]");
}

#[test]
fn fences_without_a_line_break_or_closing_fence() {
    assert_eq!(strip_fence("```[1]```"), "");
    assert_eq!(strip_fence("```json\n [1] "), "[1]");
    assert_eq!(strip_fence("\u{3000}[1]\u{a0}\n"), "[1]");
}

#[test]
fn accepts_bare_arrays_and_wrapped_ones() {
    assert_eq!(extract_array("[{\"front\":\"a\"}]").unwrap().len(), 1);
    assert_eq!(
        extract_array("{\"cards\":[{\"front\":\"a\"},{\"front\":\"b\"}]}")
            .unwrap()
            .len(),
        2
    );
    assert!(extract_array("{\"nope\":1}").is_err());
    assert!(extract_array("not json").is_err());
}

#[test]
fn a_wrapped_array_keeps_its_items_beside_other_members() {
    let items = extract_array("{\"deck\":\"x\",\"cards\":[{\"front\":\"a\"},{\"front\":\"b\"},{\"front\":\"c\"}],\"n\":3}").unwrap();
    let fronts: Vec<&str> = items.iter().map(|v| v["front"].as_str().unwrap()).collect();
    assert_eq!(fronts, ["a", "b", "c"]);
    assert_eq!(extract_array("[]").unwrap().len(), 0);
    assert_eq!(
        extract_array("{\"cards\":{\"front\":\"a\"}}").unwrap_err(),
        Error::Invalid("expected a JSON array, or an object with a `cards` array".into())
    );
    assert_eq!(
        extract_array("\"cards\"").unwrap_err(),
        Error::Invalid("expected a JSON array of cards".into())
    );
}

#[test]
fn json_errors_say_what_went_wrong() {
    assert_eq!(
        extract_array("{\"nope\":1}").unwrap_err(),
        Error::Invalid("expected a JSON array, or an object with a `cards` array".into())
    );
    assert_eq!(
        extract_array("{\"cards\":3}").unwrap_err(),
        Error::Invalid("expected a JSON array, or an object with a `cards` array".into())
    );
    assert_eq!(
        extract_array("42").unwrap_err(),
        Error::Invalid("expected a JSON array of cards".into())
    );
    let Error::Invalid(message) = extract_array("not json").unwrap_err();
    assert!(message.starts_with("that is not valid JSON: "));
    assert!(message.len() > "that is not valid JSON: ".len());
    assert_eq!(extract_array("```json\n[1, 2, 3]\n```").unwrap().len(), 3);
}

#[test]
fn card_text_trims_the_front_only() {
    let text = card_text(" 水 ", Some(" water ".into()), None, Some("story".into())).unwrap();
    assert_eq!(text.front, "水");
    assert_eq!(text.back, " water ");
    assert_eq!(text.comment, "");
    assert_eq!(text.story, "story");
    assert_eq!(
        card_text("  ", None, None, None).unwrap_err(),
        Error::Invalid("the front of a card cannot be empty".into())
    );
}

fn import_card(front: &str, back: &str) -> ImportCard {
    ImportCard {
        front: front.into(),
        back: back.into(),
        comment: " note ".into(),
        story: String::new(),
    }
}

#[test]
fn an_import_numbers_cards_after_the_deck_and_skips_bad_entries() {
    let items = vec![
        Some(import_card(" a ", " A ")),
        None,
        Some(import_card("   ", "blank")),
        Some(import_card("b", "B")),
    ];
    let plan = plan_import(&items, 4);
    assert_eq!(plan.imported, 2);
    assert_eq!(plan.skipped, 2);
    assert_eq!(plan.cards.len(), 2);
    assert_eq!(plan.cards[0].idx, 5);
    assert_eq!(plan.cards[0].front, "a");
    assert_eq!(plan.cards[0].back, "A");
    assert_eq!(plan.cards[0].comment, "note");
    assert_eq!(plan.cards[1].idx, 6);
    assert_eq!(plan.cards[1].front, "b");
}

#[test]
fn an_exported_deck_reads_back_as_its_cards() {
    let mut deck = seeded();
    deck[0].front = "水".into();
    deck[0].story = "a river runs through it".into();
    let text = export_text(&deck);
    assert!(text.contains("\"story\": \"a river runs through it\""));
    let items = extract_array(&text).unwrap();
    assert_eq!(items.len(), deck.len());
    assert_eq!(items[0]["front"], "水");
    assert_eq!(items[2]["index"], 3);
    assert_eq!(export_text(&vec![]), "[]");
}

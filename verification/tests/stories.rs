use flashcards::categories::category_name;
use flashcards::decks::{deck_name, require_kind};
use flashcards::error::Error;
use flashcards::models::{Card, DeckKind};
use flashcards::prompts::{
    after_index_update, card_payload, compose_story_request, describe, edited_prompt_fields, new_prompt_fields,
    plan_reply, ApplyResult, AttachStep, ReplyPlan, StoryReply,
};

fn card(idx: i64) -> Card {
    Card {
        id: idx,
        deck_id: 1,
        idx,
        front: format!("front {idx}"),
        back: format!("back {idx}"),
        comment: String::new(),
        story: String::new(),
    }
}

#[test]
fn a_story_request_carries_the_prompt_the_deck_and_the_range() {
    let cards = vec![card(2), card(3), card(4)];
    let request = compose_story_request(
        "  Write a short mnemonic. ",
        "Kanji",
        &Some("Japanese".into()),
        &cards,
    )
    .unwrap();
    assert_eq!(request.card_count, 3);
    assert!(request.text.starts_with("## Instructions\n\nWrite a short mnemonic.\n\n## How to answer"));
    assert!(request.text.contains("Deck: Japanese / Kanji (cards 2-4)\n\n[\n  {\n    \"index\": 2,\n"));
    assert!(request.text.contains("\"front\": \"front 3\""));
    assert!(!request.text.contains("front 5"));
    let listed = request.text.split("(cards 2-4)\n\n").nth(1).unwrap();
    assert!(!listed.contains("\"story\""));
    assert!(request.text.ends_with("\"comment\": \"\"\n  }\n]\n"));
    let single = compose_story_request("p", "Kanji", &None, &vec![card(5)]).unwrap();
    assert!(single.text.contains("Deck: Kanji (card 5)\n\n["));
    assert_eq!(
        compose_story_request("p", "Kanji", &None, &vec![]).unwrap_err(),
        Error::Invalid("that selection has no cards".into())
    );
}

#[test]
fn the_card_payload_lists_each_card_in_order() {
    let payload = card_payload(&vec![card(1), card(2)]);
    assert_eq!(
        payload,
        "[\n  {\n    \"index\": 1,\n    \"front\": \"front 1\",\n    \"back\": \"back 1\",\n    \"comment\": \"\"\n  },\n  {\n    \"index\": 2,\n    \"front\": \"front 2\",\n    \"back\": \"back 2\",\n    \"comment\": \"\"\n  }\n]"
    );
    assert_eq!(card_payload(&vec![]), "[]");
}

fn reply(index: Option<i64>, front: Option<&str>, story: &str) -> StoryReply {
    StoryReply {
        index,
        front: front.map(String::from),
        story: story.into(),
    }
}

#[test]
fn replies_are_described_by_index_and_front() {
    assert_eq!(describe(&reply(Some(99), None, "")), "#99");
    assert_eq!(describe(&reply(Some(3), Some("水"), "")), "#3 \"水\"");
    assert_eq!(describe(&reply(None, Some("front 2"), "")), "\"front 2\"");
    assert_eq!(describe(&reply(None, None, "")), "an entry without an index or front");
}

#[test]
fn a_reply_with_a_blank_story_is_skipped() {
    assert!(matches!(plan_reply(&reply(Some(3), None, "  ")), ReplyPlan::Skip));
    match plan_reply(&reply(None, Some(" front 2 "), " the story ")) {
        ReplyPlan::Attach { index, front, story } => {
            assert_eq!(index, None);
            assert_eq!(front.as_deref(), Some("front 2"));
            assert_eq!(story, "the story");
        }
        ReplyPlan::Skip => panic!("the story is not blank"),
    }
    match plan_reply(&reply(Some(1), Some("  "), "s")) {
        ReplyPlan::Attach { front, .. } => assert_eq!(front, None),
        ReplyPlan::Skip => panic!("the story is not blank"),
    }
}

#[test]
fn applying_replies_counts_updates_and_lists_the_unmatched() {
    let mut result = ApplyResult::new();
    result.record(&reply(Some(1), None, "the first story"), 1);
    result.record(&reply(None, Some("front 2"), "the second story"), 1);
    result.record(&reply(Some(99), None, "nobody"), 0);
    result.record(&reply(Some(3), None, "  "), 0);
    result.record_unreadable(&serde_json::Value::from(42));
    let odd: serde_json::Value = serde_json::from_str("{ \"story\" : [1, 2] }").unwrap();
    result.record_unreadable(&odd);
    assert_eq!(result.updated, 2);
    assert_eq!(result.unmatched, ["#99", "#3", "42", "{\"story\":[1,2]}"]);
}

#[test]
fn prompts_need_a_name_and_a_text() {
    assert_eq!(
        new_prompt_fields(" Mnemonics ", " Be vivid. ").unwrap(),
        ("Mnemonics".to_string(), "Be vivid.".to_string())
    );
    assert_eq!(
        new_prompt_fields("Empty", "  ").unwrap_err(),
        Error::Invalid("the prompt cannot be empty".into())
    );
    assert_eq!(
        new_prompt_fields(" ", "text").unwrap_err(),
        Error::Invalid("give the prompt a name".into())
    );
    assert_eq!(
        edited_prompt_fields("Vivid", "  ").unwrap(),
        ("Vivid".to_string(), String::new())
    );
}

#[test]
fn names_are_trimmed_and_required() {
    assert_eq!(category_name(" Japanese ").unwrap(), "Japanese");
    assert_eq!(
        category_name("  ").unwrap_err(),
        Error::Invalid("category name cannot be empty".into())
    );
    assert_eq!(deck_name("Verbs I ").unwrap(), "Verbs I");
    assert_eq!(
        deck_name("").unwrap_err(),
        Error::Invalid("deck name cannot be empty".into())
    );
}

#[test]
fn deck_kinds_are_checked() {
    assert!(require_kind("normal", DeckKind::Normal).is_ok());
    assert!(require_kind("anything", DeckKind::Normal).is_ok());
    assert!(require_kind("sr", DeckKind::Sr).is_ok());
    assert_eq!(
        require_kind("sr", DeckKind::Normal).unwrap_err(),
        Error::Invalid("that is a spaced repetition deck".into())
    );
    assert_eq!(
        require_kind("normal", DeckKind::Sr).unwrap_err(),
        Error::Invalid("that is not a spaced repetition deck".into())
    );
    assert_eq!(DeckKind::parse(DeckKind::Sr.as_str()), DeckKind::Sr);
    assert_eq!(DeckKind::Normal.as_str(), "normal");
}

#[test]
fn indices_are_written_like_to_string() {
    for n in [0i64, 7, -7, 10, 1234567, i64::MAX, i64::MIN] {
        assert_eq!(describe(&reply(Some(n), None, "")), format!("#{n}"));
    }
    assert_eq!(Error::invalid("x").message(), "x");
}

#[test]
fn a_story_falls_back_to_the_front_only_when_the_index_matched_nothing() {
    let plan = plan_reply(&reply(Some(3), Some("  水 "), "a story"));
    assert!(matches!(after_index_update(&plan, 2), AttachStep::Done(2)));
    match after_index_update(&plan, 0) {
        AttachStep::TryFront(front) => assert_eq!(front, "水"),
        AttachStep::Done(_) => panic!("expected a fallback on the front"),
    }
    let no_front = plan_reply(&reply(Some(3), Some("   "), "a story"));
    assert!(matches!(after_index_update(&no_front, 0), AttachStep::Done(0)));
    assert!(matches!(after_index_update(&ReplyPlan::Skip, 0), AttachStep::Done(0)));
}

//! Story prompts: checking them, building the text handed to an LLM, and
//! attaching the stories of its reply to the cards.
use vstd::prelude::*;

use serde_json::Value;

use crate::cards::{card_record, print_cards};
use crate::error::{invalid_with, Error};
use crate::json::{compact_text, pretty_records, value_text};
use crate::models::Card;
use crate::text::{blank, decimal, is_blank, push_char, push_decimal, trim, trim_owned, trimmed};

verus! {

/// The name and text a prompt is created with: both trimmed, neither empty.
pub fn new_prompt_fields(name: &str, prompt: &str) -> (r: Result<(String, String), Error>)
    ensures
        is_blank(name@) ==> r is Err && invalid_with(r->Err_0, "give the prompt a name"@),
        !is_blank(name@) && is_blank(prompt@) ==> r is Err && invalid_with(
            r->Err_0,
            "the prompt cannot be empty"@,
        ),
        !is_blank(name@) && !is_blank(prompt@) ==> r is Ok && r->Ok_0.0@ == trimmed(name@)
            && r->Ok_0.1@ == trimmed(prompt@),
{
    if blank(name) {
        return Err(Error::invalid("give the prompt a name"));
    }
    if blank(prompt) {
        return Err(Error::invalid("the prompt cannot be empty"));
    }
    Ok((trim_owned(name), trim_owned(prompt)))
}

/// The name and text a prompt is edited to: both trimmed; only the name must
/// not be empty.
pub fn edited_prompt_fields(name: &str, prompt: &str) -> (r: Result<(String, String), Error>)
    ensures
        is_blank(name@) ==> r is Err && invalid_with(r->Err_0, "give the prompt a name"@),
        !is_blank(name@) ==> r is Ok && r->Ok_0.0@ == trimmed(name@) && r->Ok_0.1@ == trimmed(
            prompt@,
        ),
{
    if blank(name) {
        return Err(Error::invalid("give the prompt a name"));
    }
    Ok((trim_owned(name), trim_owned(prompt)))
}

/// The instructions appended to every story request, so that whatever comes
/// back can be pasted straight into the reply parser.
pub const RESPONSE_FORMAT: &'static str = r#"## How to answer

Reply with JSON and nothing else: no greeting, no explanation, no markdown fence.
The reply must be a single array whose elements are objects with exactly two keys:

  "index" - the index of the card the story belongs to, copied from the input
  "story" - the story text for that card, as one string (use \n for line breaks)

Write one object per input card and keep them in the input order. Example:

[{"index": 1, "story": "..."}, {"index": 2, "story": "..."}]"#;

/// The text to put on the clipboard, and how many cards it covers.
#[derive(Debug, Clone)]
pub struct StoryRequest {
    pub text: String,
    pub card_count: usize,
}

/// Which cards a request covers: " (cards a-b)", or " (card a)" when the
/// first and last index agree.
pub open spec fn range_note(first: int, last: int) -> Seq<char> {
    if first != last {
        " (cards "@ + decimal(first) + "-"@ + decimal(last) + ")"@
    } else {
        " (card "@ + decimal(first) + ")"@
    }
}

/// The category a deck is filed under, as a prefix of its name.
pub open spec fn category_note(category: Option<String>) -> Seq<char> {
    match category {
        Some(name) => name@ + " / "@,
        None => Seq::empty(),
    }
}

/// The text of a story request: the prompt, the reply format, the deck (with
/// its category and the range of cards) and the cards as JSON.
pub open spec fn request_text(
    prompt: Seq<char>,
    deck_name: Seq<char>,
    category: Option<String>,
    first: int,
    last: int,
    payload: Seq<char>,
) -> Seq<char> {
    "## Instructions\n\n"@ + trimmed(prompt) + "\n\n"@ + RESPONSE_FORMAT@ + "\n\n## Cards\n\nDeck: "@
        + category_note(category) + deck_name + range_note(first, last) + "\n\n"@ + payload
        + "\n"@
}

/// The cards of a story request as pretty-printed JSON: an array with one
/// object per card, in order, holding its index, front, back and comment.
pub fn card_payload(cards: &Vec<Card>) -> (s: String)
    ensures
        s@ == pretty_records(cards@.map_values(|c: Card| card_record(c, false))),
{
    print_cards(cards, false)
}

/// What a story request opens with: the instructions, then the reply format
/// in full.
pub open spec fn request_opening(prompt: Seq<char>) -> Seq<char> {
    "## Instructions\n\n"@ + trimmed(prompt) + "\n\n"@ + RESPONSE_FORMAT@
}

/// A story request opens with the trimmed prompt followed by the whole reply
/// format, before the deck and its cards, whatever the deck and cards are.
pub proof fn law_request_opens_with_the_reply_format(
    prompt: Seq<char>,
    deck_name: Seq<char>,
    category: Option<String>,
    first: int,
    last: int,
    payload: Seq<char>,
)
    ensures
        request_opening(prompt).is_prefix_of(
            request_text(prompt, deck_name, category, first, last, payload),
        ),
        request_text(prompt, deck_name, category, first, last, payload).subrange(
            request_opening(prompt).len() as int,
            (request_opening(prompt).len() + "\n\n## Cards\n\nDeck: "@.len()) as int,
        ) == "\n\n## Cards\n\nDeck: "@,
{
    let o = request_opening(prompt);
    let t = request_text(prompt, deck_name, category, first, last, payload);
    let h = "\n\n## Cards\n\nDeck: "@;
    let rest = category_note(category) + deck_name + range_note(first, last) + "\n\n"@ + payload
        + "\n"@;
    assert(t =~= o + h + rest);
    assert(t.subrange(0, o.len() as int) =~= o);
    assert(t.subrange(o.len() as int, (o.len() + h.len()) as int) =~= h);
}

/// Builds the text the user pastes into an LLM from the chosen prompt, the
/// deck and the selected cards (in index order), which it lists as JSON.
pub fn compose_story_request(
    prompt: &str,
    deck_name: &str,
    category: &Option<String>,
    cards: &Vec<Card>,
) -> (r: Result<StoryRequest, Error>)
    ensures
        cards.len() == 0 ==> r is Err && invalid_with(r->Err_0, "that selection has no cards"@),
        cards.len() > 0 ==> r is Ok && r->Ok_0.card_count == cards.len() && r->Ok_0.text@
            == request_text(
            prompt@,
            deck_name@,
            *category,
            cards@[0].idx as int,
            cards@.last().idx as int,
            pretty_records(cards@.map_values(|c: Card| card_record(c, false))),
        ),
        cards.len() > 0 ==> request_opening(prompt@).is_prefix_of(r->Ok_0.text@),
{
    if cards.len() == 0 {
        return Err(Error::invalid("that selection has no cards"));
    }
    let first = cards[0].idx;
    let last = cards[cards.len() - 1].idx;
    let mut text = String::from_str("## Instructions\n\n");
    text.append(trim(prompt));
    text.append("\n\n");
    text.append(RESPONSE_FORMAT);
    text.append("\n\n## Cards\n\nDeck: ");
    match category {
        Some(name) => {
            text.append(name.as_str());
            text.append(" / ");
        },
        None => {},
    }
    text.append(deck_name);
    if first != last {
        text.append(" (cards ");
        push_decimal(&mut text, first);
        text.append("-");
        push_decimal(&mut text, last);
        text.append(")");
    } else {
        text.append(" (card ");
        push_decimal(&mut text, first);
        text.append(")");
    }
    text.append("\n\n");
    let payload = card_payload(cards);
    text.append(payload.as_str());
    text.append("\n");
    assert(text@ =~= request_text(
        prompt@,
        deck_name@,
        *category,
        first as int,
        last as int,
        payload@,
    ));
    proof {
        law_request_opens_with_the_reply_format(
            prompt@,
            deck_name@,
            *category,
            first as int,
            last as int,
            payload@,
        );
    }
    Ok(StoryRequest { text, card_count: cards.len() })
}

/// One entry of an LLM reply: the card it is for, by index or front, and its story.
#[derive(Debug, Clone)]
pub struct StoryReply {
    pub index: Option<i64>,
    pub front: Option<String>,
    pub story: String,
}

/// What to do with one reply entry.
#[derive(Debug, Clone)]
pub enum ReplyPlan {
    /// The story is blank: nothing is attached.
    Skip,
    /// Attach `story` to the card at `index`, falling back to the cards whose
    /// front matches `front`.
    Attach { index: Option<i64>, front: Option<String>, story: String },
}

/// The front a reply entry falls back on: its trimmed front, when not blank.
pub open spec fn fallback_front(front: Option<String>) -> Option<Seq<char>> {
    match front {
        Some(f) => if is_blank(f@) {
            None
        } else {
            Some(trimmed(f@))
        },
        None => None,
    }
}

/// Decides what a reply entry asks for: entries with a blank story are
/// skipped; the others attach their trimmed story by index, then by front.
pub fn plan_reply(reply: &StoryReply) -> (p: ReplyPlan)
    ensures
        is_blank(reply.story@) ==> p is Skip,
        !is_blank(reply.story@) ==> (p matches ReplyPlan::Attach { index, front, story }
            && index == reply.index && story@ == trimmed(reply.story@) && match (
            front,
            fallback_front(reply.front),
        ) {
            (Some(f), Some(g)) => f@ == g,
            (None, None) => true,
            _ => false,
        }),
{
    if blank(reply.story.as_str()) {
        return ReplyPlan::Skip;
    }
    let front = match &reply.front {
        Some(f) => if blank(f.as_str()) {
            None
        } else {
            Some(trim_owned(f.as_str()))
        },
        None => None,
    };
    ReplyPlan::Attach { index: reply.index, front, story: trim_owned(reply.story.as_str()) }
}

/// What comes after a reply's story was attached by index to `changed` cards.
#[derive(Debug, Clone)]
pub enum AttachStep {
    /// Attaching is over; this many cards took the story.
    Done(usize),
    /// Nothing matched the index: attach to the cards whose front matches.
    TryFront(String),
}

/// Decides whether attaching a story goes on after the update by index: when
/// that changed some cards it is done; otherwise it falls back on the
/// entry's front, when it has one, and is done with nothing attached when it
/// has none.
pub fn after_index_update(plan: &ReplyPlan, changed: usize) -> (s: AttachStep)
    ensures
        changed > 0 ==> (s matches AttachStep::Done(n) && n == changed),
        changed == 0 ==> match plan {
            ReplyPlan::Attach { front: Some(f), .. } => (s matches AttachStep::TryFront(g) && g@
                == f@),
            _ => (s matches AttachStep::Done(n) && n == 0),
        },
{
    if changed > 0 {
        return AttachStep::Done(changed);
    }
    match plan {
        ReplyPlan::Attach { front: Some(f), .. } => AttachStep::TryFront(f.clone()),
        _ => AttachStep::Done(0),
    }
}

/// How an unmatched reply entry is described to the user.
pub open spec fn described(index: Option<i64>, front: Option<String>) -> Seq<char> {
    match (index, front) {
        (Some(i), Some(f)) => "#"@ + decimal(i as int) + " \""@ + f@ + "\""@,
        (Some(i), None) => "#"@ + decimal(i as int),
        (None, Some(f)) => "\""@ + f@ + "\""@,
        (None, None) => "an entry without an index or front"@,
    }
}

pub fn describe(reply: &StoryReply) -> (s: String)
    ensures
        s@ == described(reply.index, reply.front),
{
    proof {
        reveal_strlit("#");
        reveal_strlit("\"");
        reveal_strlit(" \"");
    }
    match (reply.index, &reply.front) {
        (Some(index), Some(front)) => {
            let mut s = String::new();
            push_char(&mut s, '#');
            push_decimal(&mut s, index);
            push_char(&mut s, ' ');
            push_char(&mut s, '"');
            s.append(front.as_str());
            push_char(&mut s, '"');
            assert(s@ =~= described(reply.index, reply.front));
            s
        },
        (Some(index), None) => {
            let mut s = String::new();
            push_char(&mut s, '#');
            push_decimal(&mut s, index);
            assert(s@ =~= described(reply.index, reply.front));
            s
        },
        (None, Some(front)) => {
            let mut s = String::new();
            push_char(&mut s, '"');
            s.append(front.as_str());
            push_char(&mut s, '"');
            assert(s@ =~= described(reply.index, reply.front));
            s
        },
        (None, None) => String::from_str("an entry without an index or front"),
    }
}

/// What applying a reply did: stories attached, and the entries that did not
/// match a card, described for the user.
#[derive(Debug, Clone)]
pub struct ApplyResult {
    pub updated: usize,
    pub unmatched: Vec<String>,
}

impl ApplyResult {
    pub fn new() -> (r: ApplyResult)
        ensures
            r.updated == 0,
            r.unmatched@.len() == 0,
    {
        ApplyResult { updated: 0, unmatched: Vec::new() }
    }

    /// Records a reply entry that changed `changed` cards: none means it is
    /// reported as unmatched.
    pub fn record(&mut self, reply: &StoryReply, changed: usize)
        requires
            old(self).updated + changed <= usize::MAX,
        ensures
            changed == 0 ==> final(self).updated == old(self).updated
                && final(self).unmatched@.len() == old(self).unmatched@.len() + 1
                && final(self).unmatched@.drop_last() == old(self).unmatched@
                && final(self).unmatched@.last()@ == described(reply.index, reply.front),
            changed > 0 ==> final(self).updated == old(self).updated + changed
                && final(self).unmatched@ == old(self).unmatched@,
    {
        if changed == 0 {
            let d = describe(reply);
            self.unmatched.push(d);
            assert(self.unmatched@.drop_last() =~= old(self).unmatched@);
        } else {
            self.updated = self.updated + changed;
        }
    }

    /// Records an entry that could not be read as a reply, as its JSON text.
    pub fn record_unreadable(&mut self, item: &Value)
        ensures
            final(self).updated == old(self).updated,
            final(self).unmatched@.len() == old(self).unmatched@.len() + 1,
            final(self).unmatched@.drop_last() == old(self).unmatched@,
            final(self).unmatched@.last()@ == compact_text(*item),
    {
        let raw = value_text(item);
        self.unmatched.push(raw);
        assert(self.unmatched@.drop_last() =~= old(self).unmatched@);
    }
}

} // verus!

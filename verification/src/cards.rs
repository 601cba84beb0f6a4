//! Cards: picking a slice of a deck, checking what a card is written with,
//! unwrapping pasted JSON and planning an import.
use vstd::prelude::*;

use serde_json::Value;

use crate::error::{invalid_with, Error};
use crate::json::{
    doc_of, json_document, parse_node, pretty_records, print_records, record_view, take_entry,
    JsonDoc, JsonKind, JsonNode, Scalar, ScalarView,
};
use crate::models::{Card, CardSelection};
use crate::text::{
    blank, chars_of, is_blank, is_ws, skip_end, trim_end, trim_owned, trim_range, trim_start, trimmed,
};

verus! {

// ---------------------------------------------------------------------------
// Selections

/// The first index a selection covers; an open start covers everything.
pub open spec fn slice_from(sel: CardSelection) -> int {
    match sel.from_index {
        Some(f) => f as int,
        None => i64::MIN as int,
    }
}

/// The last index a selection covers; an open end covers everything.
pub open spec fn slice_to(sel: CardSelection) -> int {
    match sel.to_index {
        Some(t) => t as int,
        None => i64::MAX as int,
    }
}

/// Card `c` lies in the deck and the index range of `sel`.
pub open spec fn in_selection(sel: CardSelection, c: Card) -> bool {
    c.deck_id == sel.deck_id && slice_from(sel) <= c.idx <= slice_to(sel)
}

/// The cards of `s` come in index order.
pub open spec fn ascending(s: Seq<Card>) -> bool {
    forall|i: int, j: int| 0 <= i < j < s.len() ==> s[i].idx <= s[j].idx
}

/// Filtering cards in index order leaves them in index order, and keeps only
/// cards of `s`.
proof fn lemma_filter_ascending(s: Seq<Card>, p: spec_fn(Card) -> bool)
    requires
        ascending(s),
    ensures
        ascending(s.filter(p)),
        forall|k: int| 0 <= k < s.filter(p).len() ==> s.contains(#[trigger] s.filter(p)[k]),
    decreases s.len(),
{
    if s.len() > 0 {
        let r = s.drop_last();
        let x = s.last();
        assert(ascending(r)) by {
            assert forall|i: int, j: int| 0 <= i < j < r.len() implies r[i].idx <= r[j].idx by {
                assert(r[i] == s[i] && r[j] == s[j]);
            }
        }
        lemma_filter_ascending(r, p);
        let f = r.filter(p);
        assert(s =~= r.push(x));
        r.lemma_filter_push(x, p);
        assert forall|k: int| 0 <= k < f.len() implies exists|m: int|
            0 <= m < s.len() - 1 && s[m] == #[trigger] f[k] by {
            let m = choose|m: int| 0 <= m < r.len() && r[m] == f[k];
            assert(s[m] == r[m]);
        }
        if p(x) {
            assert forall|i: int, j: int| 0 <= i < j < f.len() + 1 implies f.push(x)[i].idx <= f.push(
                x,
            )[j].idx by {
                if j == f.len() {
                    let m = choose|m: int| 0 <= m < s.len() - 1 && s[m] == f[i];
                    assert(s[s.len() - 1] == x);
                }
            }
            assert forall|k: int| 0 <= k < f.len() + 1 implies s.contains(#[trigger] f.push(x)[k]) by {
                if k == f.len() {
                    assert(s[s.len() - 1] == x);
                } else {
                    let m = choose|m: int| 0 <= m < s.len() - 1 && s[m] == f[k];
                }
            }
        } else {
            assert forall|k: int| 0 <= k < f.len() implies s.contains(#[trigger] f[k]) by {
                let m = choose|m: int| 0 <= m < s.len() - 1 && s[m] == f[k];
            }
        }
    }
}

/// Resolves a whole-deck or sliced selection into the cards it covers, in the
/// order they are given: given the cards of the deck in index order, the
/// selection comes in index order too.
pub fn cards_in_selection(deck_cards: &Vec<Card>, selection: &CardSelection) -> (r: Result<
    Vec<Card>,
    Error,
>)
    ensures
        slice_from(*selection) > slice_to(*selection) ==> r is Err && invalid_with(
            r->Err_0,
            "slice starts after it ends"@,
        ),
        slice_from(*selection) <= slice_to(*selection) ==> r is Ok && r->Ok_0@
            == deck_cards@.filter(|c: Card| in_selection(*selection, c)),
        r is Ok && ascending(deck_cards@) ==> ascending(r->Ok_0@),
{
    let from = match selection.from_index {
        Some(f) => f,
        None => i64::MIN,
    };
    let to = match selection.to_index {
        Some(t) => t,
        None => i64::MAX,
    };
    if from > to {
        return Err(Error::invalid("slice starts after it ends"));
    }
    let ghost pred = |c: Card| in_selection(*selection, c);
    let mut out: Vec<Card> = Vec::new();
    for i in 0..deck_cards.len()
        invariant
            from == slice_from(*selection),
            to == slice_to(*selection),
            pred == (|c: Card| in_selection(*selection, c)),
            out@ == deck_cards@.take(i as int).filter(pred),
    {
        let c = &deck_cards[i];
        assert(deck_cards@.take(i + 1) =~= deck_cards@.take(i as int).push(deck_cards@[i as int]));
        proof {
            deck_cards@.take(i as int).lemma_filter_push(deck_cards@[i as int], pred);
        }
        if c.deck_id == selection.deck_id && from <= c.idx && c.idx <= to {
            out.push(c.copy());
            assert(pred(deck_cards@[i as int]));
        } else {
            assert(!pred(deck_cards@[i as int]));
        }
    }
    assert(deck_cards@.take(deck_cards.len() as int) =~= deck_cards@);
    proof {
        if ascending(deck_cards@) {
            lemma_filter_ascending(deck_cards@, pred);
        }
    }
    Ok(out)
}

/// The cards of the deck `deck_id` numbered 1..n in order.
pub open spec fn numbered_deck(cards: Seq<Card>, deck_id: i64) -> bool {
    forall|k: int| 0 <= k < cards.len() ==> #[trigger] cards[k].idx == k + 1 && cards[k].deck_id == deck_id
}

/// `x` kept within 0..m.
pub open spec fn clip(x: int, m: int) -> int {
    if x < 0 {
        0
    } else if x > m {
        m
    } else {
        x
    }
}

proof fn lemma_slice_prefix(cards: Seq<Card>, sel: CardSelection, lo: int, hi: int, m: int)
    requires
        numbered_deck(cards, sel.deck_id),
        lo == slice_from(sel) - 1,
        hi == slice_to(sel),
        lo <= hi,
        0 <= m <= cards.len(),
    ensures
        cards.take(m).filter(|c: Card| in_selection(sel, c)) == cards.subrange(
            clip(lo, m),
            clip(hi, m),
        ),
    decreases m,
{
    let pred = |c: Card| in_selection(sel, c);
    if m == 0 {
        reveal(Seq::filter);
        assert(cards.take(0) =~= Seq::<Card>::empty());
        assert(cards.subrange(0, 0) =~= Seq::<Card>::empty());
    } else {
        lemma_slice_prefix(cards, sel, lo, hi, m - 1);
        assert(cards.take(m) =~= cards.take(m - 1).push(cards[m - 1]));
        cards.take(m - 1).lemma_filter_push(cards[m - 1], pred);
        assert(cards[m - 1].idx == m);
        if lo < m && m <= hi {
            assert(cards.subrange(clip(lo, m), m) =~= cards.subrange(clip(lo, m - 1), m - 1).push(
                cards[m - 1],
            ));
        }
    }
}

/// A slice of a deck numbered 1..n picks exactly the cards between its
/// bounds, in order: "cards 3 to 20" are the third to the twentieth card.
pub proof fn law_slice_is_a_range(cards: Seq<Card>, sel: CardSelection, from: i64, to: i64)
    requires
        numbered_deck(cards, sel.deck_id),
        sel.from_index == Some(from),
        sel.to_index == Some(to),
        1 <= from <= to <= cards.len(),
    ensures
        cards.filter(|c: Card| in_selection(sel, c)) == cards.subrange(from - 1, to as int),
{
    lemma_slice_prefix(cards, sel, from - 1, to as int, cards.len() as int);
    assert(cards.take(cards.len() as int) =~= cards);
}

/// A selection with a start and no end runs from that card to the last card
/// of a deck numbered 1..n.
pub proof fn law_open_end_runs_to_the_last_card(cards: Seq<Card>, sel: CardSelection, from: i64)
    requires
        numbered_deck(cards, sel.deck_id),
        cards.len() < i64::MAX,
        sel.from_index == Some(from),
        sel.to_index is None,
        1 <= from <= cards.len(),
    ensures
        cards.filter(|c: Card| in_selection(sel, c)) == cards.subrange(from - 1, cards.len() as int),
{
    lemma_slice_prefix(cards, sel, from - 1, i64::MAX as int, cards.len() as int);
    assert(cards.take(cards.len() as int) =~= cards);
}

/// A selection with an end and no start runs from the first card of a deck
/// numbered 1..n to that card.
pub proof fn law_open_start_runs_from_the_first_card(cards: Seq<Card>, sel: CardSelection, to: i64)
    requires
        numbered_deck(cards, sel.deck_id),
        cards.len() < i64::MAX,
        sel.from_index is None,
        sel.to_index == Some(to),
        0 <= to <= cards.len(),
    ensures
        cards.filter(|c: Card| in_selection(sel, c)) == cards.subrange(0, to as int),
{
    lemma_slice_prefix(cards, sel, i64::MIN - 1, to as int, cards.len() as int);
    assert(cards.take(cards.len() as int) =~= cards);
}

/// A selection without bounds covers the whole of a deck numbered 1..n.
pub proof fn law_open_selection_is_the_whole_deck(cards: Seq<Card>, sel: CardSelection)
    requires
        numbered_deck(cards, sel.deck_id),
        cards.len() < i64::MAX,
        sel.from_index is None,
        sel.to_index is None,
    ensures
        cards.filter(|c: Card| in_selection(sel, c)) == cards,
{
    lemma_slice_prefix(cards, sel, i64::MIN - 1, i64::MAX as int, cards.len() as int);
    assert(cards.take(cards.len() as int) =~= cards);
}

// ---------------------------------------------------------------------------
// Card text

/// The text of a card as it is stored.
#[derive(Debug, Clone)]
pub struct CardText {
    pub front: String,
    pub back: String,
    pub comment: String,
    pub story: String,
}

/// An optional text, empty when absent.
pub open spec fn text_or_empty(o: Option<String>) -> Seq<char> {
    match o {
        Some(s) => s@,
        None => Seq::empty(),
    }
}

fn or_empty(o: Option<String>) -> (s: String)
    ensures
        s@ == text_or_empty(o),
{
    match o {
        Some(s) => s,
        None => String::new(),
    }
}

/// Checks the text a card is created or edited with: the front is trimmed and
/// must not be empty; the other fields are kept as given, empty when absent.
pub fn card_text(front: &str, back: Option<String>, comment: Option<String>, story: Option<
    String,
>) -> (r: Result<CardText, Error>)
    ensures
        is_blank(front@) ==> r is Err && invalid_with(
            r->Err_0,
            "the front of a card cannot be empty"@,
        ),
        !is_blank(front@) ==> r is Ok && r->Ok_0.front@ == trimmed(front@) && r->Ok_0.back@
            == text_or_empty(back) && r->Ok_0.comment@ == text_or_empty(comment)
            && r->Ok_0.story@ == text_or_empty(story),
{
    if blank(front) {
        return Err(Error::invalid("the front of a card cannot be empty"));
    }
    Ok(
        CardText {
            front: trim_owned(front),
            back: or_empty(back),
            comment: or_empty(comment),
            story: or_empty(story),
        },
    )
}

// ---------------------------------------------------------------------------
// Import

/// A card as read from an import: every field defaults to empty.
#[derive(Debug, Clone)]
pub struct ImportCard {
    pub front: String,
    pub back: String,
    pub comment: String,
    pub story: String,
}

/// A card to insert, with its index in the deck.
#[derive(Debug, Clone)]
pub struct NewCard {
    pub idx: i64,
    pub front: String,
    pub back: String,
    pub comment: String,
    pub story: String,
}

/// What an import did: cards added, entries skipped, cards in the deck after.
#[derive(Debug, Clone, Copy, PartialEq, Eq, Structural)]
pub struct ImportResult {
    pub imported: usize,
    pub skipped: usize,
    pub total: i64,
}

/// The cards an import inserts, and how many entries it takes and skips.
#[derive(Debug, Clone)]
pub struct ImportPlan {
    pub cards: Vec<NewCard>,
    pub imported: usize,
    pub skipped: usize,
}

/// An entry is imported when it reads as a card whose front is not blank.
pub open spec fn importable(o: Option<ImportCard>) -> bool {
    o matches Some(c) && !is_blank(c.front@)
}

/// `n` is the card `c` inserted at index `idx`, every field trimmed.
pub open spec fn inserted_as(c: ImportCard, idx: int, n: NewCard) -> bool {
    &&& n.idx == idx
    &&& n.front@ == trimmed(c.front@)
    &&& n.back@ == trimmed(c.back@)
    &&& n.comment@ == trimmed(c.comment@)
    &&& n.story@ == trimmed(c.story@)
}

/// An imported card keeps each field of its entry in that field, trimmed:
/// its story is the entry's story, its comment the entry's comment, and so on.
pub proof fn law_import_keeps_each_field(c: ImportCard, idx: int, n: NewCard)
    requires
        inserted_as(c, idx, n),
    ensures
        n.idx == idx,
        n.front@ == trimmed(c.front@),
        n.back@ == trimmed(c.back@),
        n.comment@ == trimmed(c.comment@),
        n.story@ == trimmed(c.story@),
{
}

/// The fields of an import do not bleed into one another: two entries that
/// differ only in their story give cards that differ only in their story,
/// and exactly when the stories differ once trimmed.
pub proof fn law_import_fields_are_independent(
    a: ImportCard,
    b: ImportCard,
    idx: int,
    na: NewCard,
    nb: NewCard,
)
    requires
        inserted_as(a, idx, na),
        inserted_as(b, idx, nb),
        a.front@ == b.front@,
        a.back@ == b.back@,
        a.comment@ == b.comment@,
    ensures
        na.front@ == nb.front@,
        na.back@ == nb.back@,
        na.comment@ == nb.comment@,
        na.story@ == nb.story@ <==> trimmed(a.story@) == trimmed(b.story@),
{
}

/// Plans an import into a deck whose last index is `last_idx`: entries that do
/// not read as a card, or whose front is blank, are skipped; the others are
/// numbered in the order they appear, continuing after `last_idx`.
pub fn plan_import(items: &Vec<Option<ImportCard>>, last_idx: i64) -> (plan: ImportPlan)
    requires
        last_idx + items.len() <= i64::MAX,
    ensures
        plan.cards.len() == items@.filter(|o: Option<ImportCard>| importable(o)).len(),
        forall|k: int|
            0 <= k < plan.cards.len() ==> inserted_as(
                items@.filter(|o: Option<ImportCard>| importable(o))[k]->0,
                last_idx + k + 1,
                #[trigger] plan.cards@[k],
            ),
        forall|k: int|
            0 <= k < plan.cards.len() ==> (#[trigger] plan.cards@[k]).story@ == trimmed(
                items@.filter(|o: Option<ImportCard>| importable(o))[k]->0.story@,
            ) && plan.cards@[k].front@ == trimmed(
                items@.filter(|o: Option<ImportCard>| importable(o))[k]->0.front@,
            ) && plan.cards@[k].back@ == trimmed(
                items@.filter(|o: Option<ImportCard>| importable(o))[k]->0.back@,
            ) && plan.cards@[k].comment@ == trimmed(
                items@.filter(|o: Option<ImportCard>| importable(o))[k]->0.comment@,
            ) && plan.cards@[k].idx == last_idx + k + 1,
        plan.imported == plan.cards.len(),
        plan.imported + plan.skipped == items.len(),
{
    let ghost pred = |o: Option<ImportCard>| importable(o);
    let mut cards: Vec<NewCard> = Vec::new();
    let mut idx = last_idx;
    let mut skipped: usize = 0;
    for i in 0..items.len()
        invariant
            last_idx + items.len() <= i64::MAX,
            pred == (|o: Option<ImportCard>| importable(o)),
            cards.len() == items@.take(i as int).filter(pred).len(),
            idx == last_idx + cards.len(),
            cards.len() + skipped == i,
            forall|k: int|
                0 <= k < cards.len() ==> inserted_as(
                    items@.take(i as int).filter(pred)[k]->0,
                    last_idx + k + 1,
                    #[trigger] cards@[k],
                ),
    {
        assert(items@.take(i + 1) =~= items@.take(i as int).push(items@[i as int]));
        proof {
            items@.take(i as int).lemma_filter_push(items@[i as int], pred);
        }
        match &items[i] {
            Some(c) => {
                if blank(c.front.as_str()) {
                    skipped = skipped + 1;
                    assert(!pred(items@[i as int]));
                } else {
                    assert(pred(items@[i as int]));
                    idx = idx + 1;
                    cards.push(
                        NewCard {
                            idx,
                            front: trim_owned(c.front.as_str()),
                            back: trim_owned(c.back.as_str()),
                            comment: trim_owned(c.comment.as_str()),
                            story: trim_owned(c.story.as_str()),
                        },
                    );
                }
            },
            None => {
                skipped = skipped + 1;
                assert(!pred(items@[i as int]));
            },
        }
    }
    assert(items@.take(items.len() as int) =~= items@);
    let imported = cards.len();
    ImportPlan { cards, imported, skipped }
}

// ---------------------------------------------------------------------------
// Markdown fences

/// An opening or closing markdown code fence.
pub open spec fn fence() -> Seq<char> {
    seq!['`', '`', '`']
}

/// What follows the first line break of `s`; nothing when there is none.
pub open spec fn after_newline(s: Seq<char>) -> Seq<char>
    decreases s.len(),
{
    if s.len() == 0 {
        s
    } else if s[0] == '\n' {
        s.drop_first()
    } else {
        after_newline(s.drop_first())
    }
}

/// `text` trimmed and, when it is wrapped in a markdown code fence, the
/// content of the fence: the opening line (with its optional language tag) and
/// a closing fence are dropped.
pub open spec fn unfenced(text: Seq<char>) -> Seq<char> {
    let t = trimmed(text);
    if t.len() >= 3 && t.take(3) == fence() {
        let rest = after_newline(t.skip(3));
        let e = trim_end(rest);
        if e.len() >= 3 && e.skip(e.len() - 3) == fence() {
            trimmed(e.take(e.len() - 3))
        } else {
            trimmed(rest)
        }
    } else {
        t
    }
}

/// Whether `cs[i..i + 3]` is a code fence.
fn fence_at(cs: &Vec<char>, i: usize) -> (b: bool)
    requires
        i + 3 <= cs.len(),
    ensures
        b == (cs@.subrange(i as int, i + 3) == fence()),
{
    let b = cs[i] == '`' && cs[i + 1] == '`' && cs[i + 2] == '`';
    assert(b ==> cs@.subrange(i as int, i + 3) =~= fence());
    assert(cs@.subrange(i as int, i + 3) == fence() ==> b) by {
        if cs@.subrange(i as int, i + 3) == fence() {
            assert(cs@.subrange(i as int, i + 3)[0] == cs@[i as int]);
            assert(cs@.subrange(i as int, i + 3)[1] == cs@[i + 1]);
            assert(cs@.subrange(i as int, i + 3)[2] == cs@[i + 2]);
        }
    }
    b
}

/// The start of what follows the first line break in `cs[from..hi]`.
fn after_newline_at(cs: &Vec<char>, from: usize, hi: usize) -> (rs: usize)
    requires
        from <= hi <= cs.len(),
    ensures
        from <= rs <= hi,
        cs@.subrange(rs as int, hi as int) == after_newline(cs@.subrange(from as int, hi as int)),
{
    let mut q = from;
    while q < hi && cs[q] != '\n'
        invariant
            from <= q <= hi <= cs.len(),
            after_newline(cs@.subrange(from as int, hi as int)) == after_newline(
                cs@.subrange(q as int, hi as int),
            ),
        decreases hi - q,
    {
        assert(cs@.subrange(q as int, hi as int).drop_first() =~= cs@.subrange(q + 1, hi as int));
        q = q + 1;
    }
    if q < hi {
        assert(cs@.subrange(q as int, hi as int).drop_first() =~= cs@.subrange(q + 1, hi as int));
        q + 1
    } else {
        assert(cs@.subrange(q as int, hi as int) =~= Seq::<char>::empty());
        hi
    }
}

/// The trimmed content of `cs[rs..hi]` without a closing fence.
fn fence_content(cs: &Vec<char>, rs: usize, hi: usize) -> (r: (usize, usize))
    requires
        rs <= hi <= cs.len(),
    ensures
        r.0 <= r.1 <= cs.len(),
        ({
            let rest = cs@.subrange(rs as int, hi as int);
            let e = trim_end(rest);
            cs@.subrange(r.0 as int, r.1 as int) == if e.len() >= 3 && e.skip(e.len() - 3)
                == fence() {
                trimmed(e.take(e.len() - 3))
            } else {
                trimmed(rest)
            }
        }),
{
    let e = skip_end(cs, rs, hi);
    let ghost te = trim_end(cs@.subrange(rs as int, hi as int));
    assert(te == cs@.subrange(rs as int, e as int));
    if e - rs >= 3 && fence_at(cs, e - 3) {
        assert(te.skip(te.len() - 3) =~= cs@.subrange(e - 3, e as int));
        assert(te.take(te.len() - 3) =~= cs@.subrange(rs as int, e - 3));
        trim_range(cs, rs, e - 3)
    } else {
        proof {
            if te.len() >= 3 {
                assert(te.skip(te.len() - 3) =~= cs@.subrange(e - 3, e as int));
            }
        }
        trim_range(cs, rs, hi)
    }
}

/// Strips a markdown code fence, which is what an LLM usually wraps JSON in.
pub fn strip_fence(text: &str) -> (out: &str)
    ensures
        out@ == unfenced(text@),
{
    let cs = chars_of(text);
    let n = cs.len();
    let (a, b) = trim_range(&cs, 0, n);
    let ghost s = cs@;
    let ghost t = s.subrange(a as int, b as int);
    assert(s.subrange(0, n as int) =~= s);
    if b - a >= 3 && fence_at(&cs, a) {
        assert(t.take(3) =~= s.subrange(a as int, a + 3));
        assert(t.skip(3) =~= s.subrange(a + 3, b as int));
        let rs = after_newline_at(&cs, a + 3, b);
        let (x, y) = fence_content(&cs, rs, b);
        text.substring_char(x, y)
    } else {
        proof {
            if t.len() >= 3 {
                assert(t.take(3) =~= s.subrange(a as int, a + 3));
            }
        }
        text.substring_char(a, b)
    }
}

// ---------------------------------------------------------------------------
// Cards as JSON

/// What the JSON of a card shows: its index, front, back and comment, and
/// its story when `with_story` is set.
pub open spec fn card_record(c: Card, with_story: bool) -> Seq<(Seq<char>, ScalarView)> {
    let base = seq![
        ("index"@, ScalarView::Int(c.idx as int)),
        ("front"@, ScalarView::Text(c.front@)),
        ("back"@, ScalarView::Text(c.back@)),
        ("comment"@, ScalarView::Text(c.comment@)),
    ];
    if with_story {
        base.push(("story"@, ScalarView::Text(c.story@)))
    } else {
        base
    }
}

/// The fields of one card's JSON object.
fn card_fields(c: &Card, with_story: bool) -> (r: Vec<(String, Scalar)>)
    ensures
        record_view(r) == card_record(*c, with_story),
{
    let mut r: Vec<(String, Scalar)> = Vec::new();
    r.push((String::from_str("index"), Scalar::Int(c.idx)));
    r.push((String::from_str("front"), Scalar::Text(c.front.clone())));
    r.push((String::from_str("back"), Scalar::Text(c.back.clone())));
    r.push((String::from_str("comment"), Scalar::Text(c.comment.clone())));
    if with_story {
        r.push((String::from_str("story"), Scalar::Text(c.story.clone())));
    }
    assert(record_view(r) =~= card_record(*c, with_story));
    r
}

/// The cards as pretty-printed JSON: an array with one object per card, in
/// order.
pub(crate) fn print_cards(cards: &Vec<Card>, with_story: bool) -> (s: String)
    ensures
        s@ == pretty_records(cards@.map_values(|c: Card| card_record(c, with_story))),
        unfenced(s@) == s@,
        json_document(s@) matches Some(JsonDoc::Array(items)) && items.len() == cards.len(),
{
    let mut records: Vec<Vec<(String, Scalar)>> = Vec::new();
    for i in 0..cards.len()
        invariant
            records.len() == i,
            records@.map_values(|r: Vec<(String, Scalar)>| record_view(r)) == cards@.take(
                i as int,
            ).map_values(|c: Card| card_record(c, with_story)),
    {
        let record = card_fields(&cards[i], with_story);
        let ghost before = records@;
        records.push(record);
        assert(records@ == before.push(record));
        assert forall|k: int| 0 <= k < i implies #[trigger] record_view(records@[k])
            == card_record(cards@[k], with_story) by {
            assert(records@[k] == before[k]);
            assert(before.map_values(|r: Vec<(String, Scalar)>| record_view(r))[k] == cards@.take(
                i as int,
            ).map_values(|c: Card| card_record(c, with_story))[k]);
        }
        assert(records@.map_values(|r: Vec<(String, Scalar)>| record_view(r)) =~= cards@.take(
            i + 1,
        ).map_values(|c: Card| card_record(c, with_story)));
    }
    assert(cards@.take(cards.len() as int) =~= cards@);
    let s = print_records(&records);
    proof {
        lemma_unfenced_bracketed(s@);
    }
    s
}

/// Text that opens with `[` and closes with `]` is read as it stands: there is
/// nothing to trim and no fence.
proof fn lemma_unfenced_bracketed(s: Seq<char>)
    requires
        s.len() >= 2,
        s[0] == '[',
        s.last() == ']',
    ensures
        unfenced(s) == s,
{
    assert(!is_ws('['));
    assert(!is_ws(']'));
    assert(trim_start(s) == s);
    assert(trim_end(s) == s);
    assert(trimmed(s) == s);
    if s.len() >= 3 {
        assert(s.take(3)[0] == s[0]);
        assert(s.take(3) != fence());
    }
}

/// A deck written out in the shape an import reads: a JSON array with one
/// object per card, in order, holding its index, front, back, comment and
/// story. Reading it back with `extract_array` gives one item per card.
pub fn export_text(cards: &Vec<Card>) -> (s: String)
    ensures
        s@ == pretty_records(cards@.map_values(|c: Card| card_record(c, true))),
        json_document(unfenced(s@)) matches Some(doc) && items_given(doc) matches Some(items)
            && items.len() == cards.len(),
{
    print_cards(cards, true)
}

// ---------------------------------------------------------------------------
// Pasted JSON

/// The error for an object without a `cards` array.
pub open spec fn no_cards_message() -> Seq<char> {
    "expected a JSON array, or an object with a `cards` array"@
}

/// The error for a document that is neither an array nor an object.
pub open spec fn not_array_message() -> Seq<char> {
    "expected a JSON array of cards"@
}

/// The error prefix for text that is not JSON.
pub open spec fn not_json_prefix() -> Seq<char> {
    "that is not valid JSON: "@
}

/// The items a document of shape `doc` gives: the elements of an array, or
/// those of the array under an object's `cards` member, in order. `None`
/// where it gives none: an object without such an array, or a scalar.
pub open spec fn items_given(doc: JsonDoc) -> Option<Seq<Value>> {
    match doc {
        JsonDoc::Array(items) => Some(items),
        JsonDoc::Object(members) => if members.dom().contains("cards"@) {
            match members["cards"@] {
                JsonKind::Array(items) => Some(items),
                _ => None,
            }
        } else {
            None
        },
        JsonDoc::Scalar => None,
    }
}

/// The message a document of shape `doc` is refused with, where it gives no
/// items.
pub open spec fn refusal_of(doc: JsonDoc) -> Seq<char> {
    if doc is Object {
        no_cards_message()
    } else {
        not_array_message()
    }
}

/// What reading the items out of a document of shape `doc` comes to: `Ok`
/// with the items it gives, in order, or the refusal that fits its shape.
pub open spec fn read_as(doc: JsonDoc, r: Result<Vec<Value>, Error>) -> bool {
    match items_given(doc) {
        Some(items) => r is Ok && r->Ok_0@ == items,
        None => r is Err && invalid_with(r->Err_0, refusal_of(doc)),
    }
}

/// The items of the `cards` entry of an object, which must be an array.
pub fn wrapped_items(entry: Option<JsonNode>) -> (r: Result<Vec<Value>, Error>)
    ensures
        entry matches Some(JsonNode::Array(items)) ==> r == Ok::<Vec<Value>, Error>(items),
        !(entry matches Some(JsonNode::Array(_))) ==> r is Err && invalid_with(
            r->Err_0,
            no_cards_message(),
        ),
{
    match entry {
        Some(JsonNode::Array(items)) => Ok(items),
        _ => Err(Error::invalid("expected a JSON array, or an object with a `cards` array")),
    }
}

/// The items of a document: an array is taken as it is, an object must hold
/// them as an array under `cards`, anything else is refused.
pub fn top_items(node: JsonNode) -> (r: Result<Vec<Value>, Error>)
    ensures
        read_as(doc_of(node), r),
        node matches JsonNode::Array(items) ==> r == Ok::<Vec<Value>, Error>(items),
{
    match node {
        JsonNode::Array(items) => Ok(items),
        JsonNode::Object(mut map) => {
            let entry = take_entry(&mut map, "cards");
            wrapped_items(entry)
        },
        JsonNode::Other(_) => Err(Error::invalid("expected a JSON array of cards")),
    }
}

/// Accepts a bare array, or an object with a `cards` key holding one, after
/// stripping a markdown fence. Shared by imports and story replies.
pub fn extract_array(text: &str) -> (r: Result<Vec<Value>, Error>)
    ensures
        json_document(unfenced(text@)) is None ==> r is Err && (r->Err_0 matches Error::Invalid(
            m,
        ) && not_json_prefix().is_prefix_of(m@)),
        json_document(unfenced(text@)) matches Some(doc) ==> read_as(doc, r),
{
    let node = match parse_node(strip_fence(text)) {
        Ok(node) => node,
        Err(e) => {
            let mut message = String::from_str("that is not valid JSON: ");
            message.append(e.as_str());
            assert(not_json_prefix().is_prefix_of(message@)) by {
                assert(message@.subrange(0, not_json_prefix().len() as int) =~= not_json_prefix());
            }
            return Err(Error::Invalid(message));
        },
    };
    top_items(node)
}

} // verus!

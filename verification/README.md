# flashcards

A flashcard library with a flexible training program: decks of numbered
cards grouped in categories, slices of decks, JSON imports, story prompts for
an LLM and the replies pasted back, and spaced repetition decks scheduled by
an SM-2 variant with learning steps.

The library in `src/` is verified with Verus. Public functions state what
they return over a mathematical model (sequences of characters, sequences of
cards, integers), and the modules prove laws about them. Where a value comes
from serde_json, the contracts speak of the parsed document as serde_json
reads it: `extract_array` promises the items a pasted document gives (the
array's elements, or those of its `cards` member, in order), or the error it
is refused with, and the JSON written for an export or a story request is
serde_json's pretty printing of the cards' fields, in order. What an item
holds is read by the application.

- `order` — renumbering a deck and moving a card (order kept, no gaps or
  duplicates, renumbering is idempotent, a move reinserts the card);
- `cards` — slices of a deck, card text, markdown fences, the items of pasted
  JSON, imports, and a deck written out as JSON for export or for a story
  request;
- `srs` — the decisions of a review (state, step, counters, ease and interval
  rules, when the card is due);
- `sr` — daily limits, the study queue (its order, caps and lack of repeats),
  deck statistics, delays for people;
- `prompts` — story requests (instruction, reply format and the selected
  cards), and what to do with each story reply: whether
  to attach it, when to fall back from the card's index to its front, and the
  count of updated and unmatched entries (the cards are matched in SQL by the
  application);
- `categories`, `decks`, `models`, `error`, `text`, `json`.

`app/` is the application around it: SQLite storage (rusqlite), the clock
(chrono), serde for the frontend, the floating-point half of the scheduler,
and the commands the frontend calls. `tests/` exercises the library.

//! Spaced repetition decks: daily limits, the study queue, deck statistics
//! and how long until a card comes back.
use vstd::prelude::*;

use crate::error::{invalid_with, Error};
use crate::models::SrDeckStats;
use crate::srs::State;
use crate::text::{decimal, push_char, push_decimal};

verus! {

/// `x`, or 0 when it is negative.
pub open spec fn at_least_zero(x: int) -> int {
    if x < 0 {
        0
    } else {
        x
    }
}

pub open spec fn min(a: int, b: int) -> int {
    if a < b {
        a
    } else {
        b
    }
}

/// Today's effective new/review caps for a deck, and how much of each has
/// already been used today.
#[derive(Debug, Clone, Copy, PartialEq, Eq, Structural)]
pub struct DailyLimits {
    pub new_per_day: i64,
    pub review_per_day: i64,
    pub new_studied_today: i64,
    pub reviews_today: i64,
}

/// The remainders of the caps are within `i64`.
pub open spec fn limits_fit(l: DailyLimits) -> bool {
    &&& i64::MIN <= l.new_per_day - l.new_studied_today <= i64::MAX
    &&& i64::MIN <= l.review_per_day - l.reviews_today <= i64::MAX
}

/// New cards that may still be introduced today.
pub open spec fn new_left(l: DailyLimits) -> int {
    at_least_zero(l.new_per_day - l.new_studied_today)
}

/// Reviews that may still be done today.
pub open spec fn reviews_left(l: DailyLimits) -> int {
    at_least_zero(l.review_per_day - l.reviews_today)
}

impl DailyLimits {
    pub fn new_remaining(&self) -> (n: i64)
        requires
            limits_fit(*self),
        ensures
            n == new_left(*self),
    {
        let left = self.new_per_day - self.new_studied_today;
        if left < 0 {
            0
        } else {
            left
        }
    }

    pub fn review_remaining(&self) -> (n: i64)
        requires
            limits_fit(*self),
        ensures
            n == reviews_left(*self),
    {
        let left = self.review_per_day - self.reviews_today;
        if left < 0 {
            0
        } else {
            left
        }
    }
}

/// Permanent daily limits must not be negative.
pub fn check_daily_limits(new_per_day: i64, review_per_day: i64) -> (r: Result<(), Error>)
    ensures
        (new_per_day < 0 || review_per_day < 0) ==> r is Err && invalid_with(
            r->Err_0,
            "limits cannot be negative"@,
        ),
        !(new_per_day < 0 || review_per_day < 0) ==> r is Ok,
{
    if new_per_day < 0 || review_per_day < 0 {
        Err(Error::invalid("limits cannot be negative"))
    } else {
        Ok(())
    }
}

/// A one-off bump to today's limits counts only its positive part.
pub fn limit_bump(extra: i64) -> (b: i64)
    ensures
        b == at_least_zero(extra as int),
{
    if extra < 0 {
        0
    } else {
        extra
    }
}

/// How many days ahead a session reviews: the requested number, 0 when absent
/// or negative.
pub fn review_ahead(days: Option<i64>) -> (d: i64)
    ensures
        d == at_least_zero(days.unwrap_or(0) as int),
{
    let d = match days {
        Some(d) => d,
        None => 0,
    };
    if d < 0 {
        0
    } else {
        d
    }
}

/// The overall size of a study session: the requested one, 100 when absent.
pub open spec fn overall_limit(limit: Option<i64>) -> int {
    match limit {
        Some(n) => n as int,
        None => 100,
    }
}

/// How many due learning cards a session takes: up to the overall limit,
/// every one of them when the limit is negative.
pub open spec fn learning_taken(n_learning: int, overall: int) -> int {
    if overall < 0 {
        n_learning
    } else {
        min(n_learning, overall)
    }
}

/// How many due review cards a session may take after `taken` learning cards:
/// what is left of the overall limit, further capped by today's reviews left
/// unless reviewing ahead.
pub open spec fn review_room(l: DailyLimits, overall: int, taken: int, ahead: int) -> int {
    at_least_zero(
        if ahead > 0 {
            overall - taken
        } else {
            min(reviews_left(l), overall - taken)
        },
    )
}

/// How many new cards a session may take after `taken` other cards.
pub open spec fn new_room(l: DailyLimits, overall: int, taken: int) -> int {
    at_least_zero(min(new_left(l), overall - taken))
}

/// How many due review cards a session takes.
pub open spec fn review_taken(
    n_learning: int,
    n_review: int,
    l: DailyLimits,
    limit: Option<i64>,
    ahead: int,
) -> int {
    let overall = overall_limit(limit);
    let nl = learning_taken(n_learning, overall);
    min(review_room(l, overall, nl, ahead), n_review)
}

/// How many new cards a session takes.
pub open spec fn new_taken(
    n_learning: int,
    n_review: int,
    n_new: int,
    l: DailyLimits,
    limit: Option<i64>,
    ahead: int,
) -> int {
    let overall = overall_limit(limit);
    let nl = learning_taken(n_learning, overall);
    let nr = review_taken(n_learning, n_review, l, limit, ahead);
    min(new_room(l, overall, nl + nr), n_new)
}

/// How far into the future a learning card may be pulled forward, so that a
/// card just failed comes back inside the same session.
pub const LEARN_AHEAD_MINUTES: i64 = 20;

/// The cards due now: the due learning cards, the due review cards and the
/// new cards, each list in its study order, within the limits.
pub open spec fn due_queue<T>(
    learning: Seq<T>,
    review: Seq<T>,
    fresh: Seq<T>,
    l: DailyLimits,
    limit: Option<i64>,
    ahead: int,
) -> Seq<T> {
    let (a, b, c) = (learning.len() as int, review.len() as int, fresh.len() as int);
    learning.take(learning_taken(a, overall_limit(limit))) + review.take(
        review_taken(a, b, l, limit, ahead),
    ) + fresh.take(new_taken(a, b, c, l, limit, ahead))
}

/// The study queue: the cards due now; when there are none, the learning
/// cards `waiting` within the learn-ahead window are pulled forward.
pub open spec fn queue<T>(
    learning: Seq<T>,
    waiting: Seq<T>,
    review: Seq<T>,
    fresh: Seq<T>,
    l: DailyLimits,
    limit: Option<i64>,
    ahead: int,
) -> Seq<T> {
    let due = due_queue(learning, review, fresh, l, limit, ahead);
    if due.len() == 0 {
        waiting.take(learning_taken(waiting.len() as int, overall_limit(limit)))
    } else {
        due
    }
}

/// The arithmetic of building a queue stays within `i64`.
pub open spec fn queue_fits(l: DailyLimits, limit: Option<i64>, n_learning: int) -> bool {
    &&& limits_fit(l)
    &&& overall_limit(limit) - learning_taken(n_learning, overall_limit(limit)) >= i64::MIN
}

/// The first `n` items of `v` (none when `n` is not positive).
fn keep_first<T>(v: Vec<T>, n: i64) -> (out: Vec<T>)
    ensures
        out@ == v@.take(min(at_least_zero(n as int), v.len() as int)),
{
    let mut v = v;
    if n <= 0 {
        v.truncate(0);
    } else if (n as u64) < (v.len() as u64) {
        v.truncate(n as usize);
    }
    proof {
        if n <= 0 {
            assert(v@ =~= Seq::<T>::empty());
        }
    }
    v
}

/// The study queue: due learning/relearning cards first (uncapped by the daily
/// limits, since they need to be seen again to graduate), then due review
/// cards, then new cards, the last two capped by whatever today's daily limits
/// still allow, and all of them by the overall `limit` (100 when absent).
/// When nothing is due, the learning cards `waiting` within the learn-ahead
/// window come forward instead, so that a card just failed comes back in the
/// same session without jumping ahead of the cards still to study.
/// `review_ahead_days`, when positive, lifts the review cap for the session;
/// the caller then passes the review cards due within that many days.
pub fn compose_queue<T>(
    learning: Vec<T>,
    waiting: Vec<T>,
    review: Vec<T>,
    fresh: Vec<T>,
    limits: &DailyLimits,
    limit: Option<i64>,
    review_ahead_days: Option<i64>,
) -> (q: Vec<T>)
    requires
        queue_fits(*limits, limit, learning.len() as int),
    ensures
        q@ == queue(
            learning@,
            waiting@,
            review@,
            fresh@,
            *limits,
            limit,
            at_least_zero(review_ahead_days.unwrap_or(0) as int),
        ),
{
    let ghost (l0, w0, r0, f0) = (learning@, waiting@, review@, fresh@);
    let ahead = review_ahead(review_ahead_days);
    let overall: i64 = match limit {
        Some(n) => n,
        None => 100,
    };
    let mut learning = if overall < 0 {
        learning
    } else {
        keep_first(learning, overall)
    };
    let nl = learning.len() as i64;
    assert(nl == learning_taken(l0.len() as int, overall as int));
    let left = overall - nl;
    let room = if ahead > 0 {
        left
    } else {
        let cap = limits.review_remaining();
        if cap < left {
            cap
        } else {
            left
        }
    };
    assert(at_least_zero(room as int) == review_room(*limits, overall as int, nl as int, ahead as int));
    assert(ahead as int == at_least_zero(review_ahead_days.unwrap_or(0) as int));
    let mut review = keep_first(review, room);
    let nr = review.len() as i64;
    let left = overall - nl - nr;
    let cap = limits.new_remaining();
    let fresh_room = if cap < left {
        cap
    } else {
        left
    };
    assert(at_least_zero(fresh_room as int) == new_room(*limits, overall as int, (nl + nr) as int));
    let mut fresh = keep_first(fresh, fresh_room);
    let mut q = learning;
    q.append(&mut review);
    q.append(&mut fresh);
    assert(q@ =~= due_queue(l0, r0, f0, *limits, limit, ahead as int));
    if q.len() == 0 {
        if overall < 0 {
            waiting
        } else {
            keep_first(waiting, overall)
        }
    } else {
        q
    }
}

/// The cards of `candidates` an SR deck whose members are `members` takes
/// in: each candidate not yet a member, once, in order.
pub open spec fn fresh_members(members: Seq<i64>, candidates: Seq<i64>) -> Seq<i64>
    decreases candidates.len(),
{
    if candidates.len() == 0 {
        Seq::empty()
    } else {
        let before = fresh_members(members, candidates.drop_last());
        let c = candidates.last();
        if members.contains(c) || before.contains(c) {
            before
        } else {
            before.push(c)
        }
    }
}

fn contains(v: &Vec<i64>, x: i64) -> (b: bool)
    ensures
        b == v@.contains(x),
{
    for i in 0..v.len()
        invariant
            forall|j: int| 0 <= j < i ==> v@[j] != x,
    {
        if v[i] == x {
            return true;
        }
    }
    false
}

/// The cards (by id) that adding `candidates` to an SR deck whose members are
/// `members` brings in: cards already in the deck keep their place and their
/// schedule, and a card selected twice comes in once.
pub fn new_members(members: &Vec<i64>, candidates: &Vec<i64>) -> (added: Vec<i64>)
    ensures
        added@ == fresh_members(members@, candidates@),
{
    let mut added: Vec<i64> = Vec::new();
    for i in 0..candidates.len()
        invariant
            added@ == fresh_members(members@, candidates@.take(i as int)),
    {
        let c = candidates[i];
        assert(candidates@.take(i + 1).drop_last() =~= candidates@.take(i as int));
        if !contains(members, c) && !contains(&added, c) {
            added.push(c);
        }
    }
    assert(candidates@.take(candidates.len() as int) =~= candidates@);
    added
}

/// Adding cards to an SR deck only brings in what is missing: no card comes
/// in twice, none that is already a member, and afterwards every candidate is
/// a member.
pub proof fn law_adding_brings_in_only_what_is_missing(members: Seq<i64>, candidates: Seq<i64>)
    ensures
        forall|i: int, j: int|
            0 <= i < j < fresh_members(members, candidates).len() ==> fresh_members(
                members,
                candidates,
            )[i] != fresh_members(members, candidates)[j],
        forall|i: int|
            0 <= i < fresh_members(members, candidates).len() ==> !members.contains(
                #[trigger] fresh_members(members, candidates)[i],
            ) && candidates.contains(fresh_members(members, candidates)[i]),
        forall|c: i64|
            candidates.contains(c) ==> members.contains(c) || fresh_members(
                members,
                candidates,
            ).contains(c),
    decreases candidates.len(),
{
    if candidates.len() > 0 {
        let rest = candidates.drop_last();
        law_adding_brings_in_only_what_is_missing(members, rest);
        let before = fresh_members(members, rest);
        let c = candidates.last();
        assert forall|x: i64| candidates.contains(x) implies members.contains(x)
            || fresh_members(members, candidates).contains(x) by {
            let k = choose|k: int| 0 <= k < candidates.len() && candidates[k] == x;
            if k < candidates.len() - 1 {
                assert(rest[k] == x);
                if before.contains(x) {
                    let m = choose|m: int| 0 <= m < before.len() && before[m] == x;
                    if !(members.contains(c) || before.contains(c)) {
                        assert(before.push(c)[m] == x);
                    }
                }
            } else {
                if !(members.contains(c) || before.contains(c)) {
                    assert(before.push(c)[before.len() as int] == c);
                }
            }
        }
        assert forall|i: int| 0 <= i < fresh_members(members, candidates).len() implies
            candidates.contains(#[trigger] fresh_members(members, candidates)[i]) by {
            let r = fresh_members(members, candidates);
            if i < before.len() {
                assert(r[i] == before[i]);
                let k = choose|k: int| 0 <= k < rest.len() && rest[k] == before[i];
                assert(candidates[k] == before[i]);
            } else {
                assert(candidates[candidates.len() - 1] == c);
            }
        }
    }
}

/// Whether text `a` sorts before or equal to text `b`, character by
/// character, a prefix first; this is how stored timestamps compare.
pub open spec fn text_le(a: Seq<char>, b: Seq<char>) -> bool
    decreases a.len(),
{
    if a.len() == 0 {
        true
    } else if b.len() == 0 {
        false
    } else if a[0] != b[0] {
        (a[0] as u32) < (b[0] as u32)
    } else {
        text_le(a.drop_first(), b.drop_first())
    }
}

/// Whether `a` sorts before or equal to `b`, as `text_le` says.
pub fn text_at_most(a: &str, b: &str) -> (r: bool)
    ensures
        r == text_le(a@, b@),
{
    let x = crate::text::chars_of(a);
    let y = crate::text::chars_of(b);
    let mut i: usize = 0;
    assert(x@.skip(0) =~= x@ && y@.skip(0) =~= y@);
    while i < x.len() && i < y.len() && x[i] == y[i]
        invariant
            i <= x.len(),
            i <= y.len(),
            text_le(a@, b@) == text_le(x@.skip(i as int), y@.skip(i as int)),
            x@ == a@,
            y@ == b@,
        decreases x.len() - i,
    {
        assert(x@.skip(i as int).drop_first() =~= x@.skip(i + 1));
        assert(y@.skip(i as int).drop_first() =~= y@.skip(i + 1));
        i = i + 1;
    }
    if i == x.len() {
        true
    } else if i == y.len() {
        false
    } else {
        (x[i] as u32) < (y[i] as u32)
    }
}

/// What the study queue reads of a card of an SR deck.
#[derive(Debug, Clone)]
pub struct QueueEntry {
    pub id: i64,
    /// The card's state; `None` when the stored name is not a state's.
    pub state: Option<State>,
    /// When the card is due, as a stored timestamp.
    pub due_at: String,
}

impl QueueEntry {
    pub fn copy(&self) -> (e: QueueEntry)
        ensures
            e == *self,
    {
        QueueEntry { id: self.id, state: self.state, due_at: self.due_at.clone() }
    }
}

/// Which cards a part of the queue draws on.
#[derive(Debug, Clone, Copy, PartialEq, Eq, Structural)]
pub enum Pick {
    /// Cards in learning or relearning.
    Learning,
    /// Cards in the review queue.
    Review,
    /// Cards never studied.
    New,
}

pub open spec fn state_picked(pick: Pick, s: Option<State>) -> bool {
    match pick {
        Pick::Learning => s == Some(State::Learning) || s == Some(State::Relearning),
        Pick::Review => s == Some(State::Review),
        Pick::New => s == Some(State::New),
    }
}

/// Card `e` is of the kind `pick` and due after `after` (when given) and by
/// `until` (when given).
pub open spec fn selected(
    e: QueueEntry,
    pick: Pick,
    after: Option<Seq<char>>,
    until: Option<Seq<char>>,
) -> bool {
    &&& state_picked(pick, e.state)
    &&& (after matches Some(a) ==> !text_le(e.due_at@, a))
    &&& (until matches Some(u) ==> text_le(e.due_at@, u))
}

pub open spec fn view_of(t: Option<&str>) -> Option<Seq<char>> {
    match t {
        Some(s) => Some(s@),
        None => None,
    }
}

/// The cards of `entries`, in order, that `selected` keeps.
fn select(entries: &Vec<QueueEntry>, pick: Pick, after: Option<&str>, until: Option<&str>) -> (out:
    Vec<QueueEntry>)
    ensures
        out@ == entries@.filter(|e: QueueEntry| selected(e, pick, view_of(after), view_of(until))),
{
    let ghost pred = |e: QueueEntry| selected(e, pick, view_of(after), view_of(until));
    let mut out: Vec<QueueEntry> = Vec::new();
    for i in 0..entries.len()
        invariant
            pred == (|e: QueueEntry| selected(e, pick, view_of(after), view_of(until))),
            out@ == entries@.take(i as int).filter(pred),
    {
        let e = &entries[i];
        assert(entries@.take(i + 1) =~= entries@.take(i as int).push(entries@[i as int]));
        proof {
            entries@.take(i as int).lemma_filter_push(entries@[i as int], pred);
        }
        let kind = match (pick, e.state) {
            (Pick::Learning, Some(State::Learning)) => true,
            (Pick::Learning, Some(State::Relearning)) => true,
            (Pick::Review, Some(State::Review)) => true,
            (Pick::New, Some(State::New)) => true,
            _ => false,
        };
        let late_enough = match after {
            Some(a) => !text_at_most(e.due_at.as_str(), a),
            None => true,
        };
        let early_enough = match until {
            Some(u) => text_at_most(e.due_at.as_str(), u),
            None => true,
        };
        if kind && late_enough && early_enough {
            out.push(e.copy());
        }
    }
    assert(entries@.take(entries.len() as int) =~= entries@);
    out
}

/// The due learning cards, by due time.
pub open spec fn learning_due(by_due: Seq<QueueEntry>, now: Seq<char>) -> Seq<QueueEntry> {
    by_due.filter(|e: QueueEntry| selected(e, Pick::Learning, None, Some(now)))
}

/// The learning cards due after now but within the learn-ahead window.
pub open spec fn learning_waiting(by_due: Seq<QueueEntry>, now: Seq<char>, ahead: Seq<char>) -> Seq<
    QueueEntry,
> {
    by_due.filter(|e: QueueEntry| selected(e, Pick::Learning, Some(now), Some(ahead)))
}

/// The review cards due by `until`.
pub open spec fn reviews_due(by_due: Seq<QueueEntry>, until: Seq<char>) -> Seq<QueueEntry> {
    by_due.filter(|e: QueueEntry| selected(e, Pick::Review, None, Some(until)))
}

/// The new cards.
pub open spec fn new_cards(by_deck: Seq<QueueEntry>) -> Seq<QueueEntry> {
    by_deck.filter(|e: QueueEntry| selected(e, Pick::New, None, None))
}

/// The study queue of an SR deck, from its cards in order of due time (then
/// id) and in order of source deck (then index): the learning cards due by
/// `now`, then the review cards due by `review_until` (now, or later when
/// reviewing ahead), then new cards, within the limits; when none of those is
/// there, the learning cards due by `learn_ahead`.
pub fn study_queue(
    by_due: &Vec<QueueEntry>,
    by_deck: &Vec<QueueEntry>,
    now: &str,
    learn_ahead: &str,
    review_until: &str,
    limits: &DailyLimits,
    limit: Option<i64>,
    review_ahead_days: Option<i64>,
) -> (q: Vec<QueueEntry>)
    requires
        queue_fits(*limits, limit, learning_due(by_due@, now@).len() as int),
    ensures
        q@ == queue(
            learning_due(by_due@, now@),
            learning_waiting(by_due@, now@, learn_ahead@),
            reviews_due(by_due@, review_until@),
            new_cards(by_deck@),
            *limits,
            limit,
            at_least_zero(review_ahead_days.unwrap_or(0) as int),
        ),
{
    let learning = select(by_due, Pick::Learning, None, Some(now));
    let waiting = select(by_due, Pick::Learning, Some(now), Some(learn_ahead));
    let review = select(by_due, Pick::Review, None, Some(review_until));
    let fresh = select(by_deck, Pick::New, None, None);
    compose_queue(learning, waiting, review, fresh, limits, limit, review_ahead_days)
}

/// Whether building the study queue of these cards stays within `i64`: the
/// caller checks this before `study_queue`.
pub fn study_queue_fits(
    by_due: &Vec<QueueEntry>,
    now: &str,
    limits: &DailyLimits,
    limit: Option<i64>,
) -> (b: bool)
    ensures
        b == queue_fits(*limits, limit, learning_due(by_due@, now@).len() as int),
{
    let fits = limits.new_per_day.checked_sub(limits.new_studied_today).is_some()
        && limits.review_per_day.checked_sub(limits.reviews_today).is_some();
    if !fits {
        return false;
    }
    let n_learning = select(by_due, Pick::Learning, None, Some(now)).len();
    let overall: i64 = match limit {
        Some(n) => n,
        None => 100,
    };
    let taken: u64 = if overall < 0 || (n_learning as u64) < (overall as u64) {
        n_learning as u64
    } else {
        overall as u64
    };
    overall as i128 - taken as i128 >= i64::MIN as i128
}

/// A card the queue may offer: a learning card due within the learn-ahead
/// window, a review card due by the review cutoff, or a new card.
pub open spec fn offerable(e: QueueEntry, learn_ahead: Seq<char>, review_until: Seq<char>) -> bool {
    ||| state_picked(Pick::Learning, e.state) && text_le(e.due_at@, learn_ahead)
    ||| state_picked(Pick::Review, e.state) && text_le(e.due_at@, review_until)
    ||| e.state == Some(State::New)
}

/// The queue only offers cards that are due: learning cards due within the
/// learn-ahead window (and due by now unless nothing else is due), review
/// cards due by the review cutoff, and new cards.
pub proof fn law_queue_offers_only_due_cards(
    by_due: Seq<QueueEntry>,
    by_deck: Seq<QueueEntry>,
    now: Seq<char>,
    learn_ahead: Seq<char>,
    review_until: Seq<char>,
    l: DailyLimits,
    limit: Option<i64>,
    ahead: int,
    k: int,
)
    requires
        text_le(now, learn_ahead),
        0 <= k < queue(
            learning_due(by_due, now),
            learning_waiting(by_due, now, learn_ahead),
            reviews_due(by_due, review_until),
            new_cards(by_deck),
            l,
            limit,
            ahead,
        ).len(),
    ensures
        offerable(
            queue(
                learning_due(by_due, now),
                learning_waiting(by_due, now, learn_ahead),
                reviews_due(by_due, review_until),
                new_cards(by_deck),
                l,
                limit,
                ahead,
            )[k],
            learn_ahead,
            review_until,
        ),
{
    let ld = learning_due(by_due, now);
    let lw = learning_waiting(by_due, now, learn_ahead);
    let rd = reviews_due(by_due, review_until);
    let nc = new_cards(by_deck);
    let q = queue(ld, lw, rd, nc, l, limit, ahead);
    let e = q[k];
    by_due.filter_lemma(|e: QueueEntry| selected(e, Pick::Learning, None, Some(now)));
    by_due.filter_lemma(|e: QueueEntry| selected(e, Pick::Learning, Some(now), Some(learn_ahead)));
    by_due.filter_lemma(|e: QueueEntry| selected(e, Pick::Review, None, Some(review_until)));
    by_deck.filter_lemma(|e: QueueEntry| selected(e, Pick::New, None, None));
    if text_le(e.due_at@, now) {
        lemma_text_le_transitive(e.due_at@, now, learn_ahead);
    }
}

/// No card occurs twice in `s`.
pub open spec fn distinct_ids(s: Seq<QueueEntry>) -> bool {
    forall|i: int, j: int| 0 <= i < j < s.len() ==> s[i].id != s[j].id
}

/// The lists a study queue is built from describe one deck's cards: each
/// holds a card once, and the two agree on every card's state.
pub open spec fn consistent_cards(by_due: Seq<QueueEntry>, by_deck: Seq<QueueEntry>) -> bool {
    &&& distinct_ids(by_due)
    &&& distinct_ids(by_deck)
    &&& forall|i: int, j: int|
        0 <= i < by_due.len() && 0 <= j < by_deck.len() && #[trigger] by_due[i].id
            == #[trigger] by_deck[j].id ==> by_due[i].state == by_deck[j].state
}

/// Which part of the queue a card belongs to: learning cards first, then
/// review cards, then new cards.
pub open spec fn part_of(e: QueueEntry) -> int {
    if e.state == Some(State::Review) {
        1
    } else if e.state == Some(State::New) {
        2
    } else {
        0
    }
}

/// Filtering keeps a card at most once, and keeps only cards of `s` that
/// pass the filter.
proof fn lemma_filter_distinct(s: Seq<QueueEntry>, p: spec_fn(QueueEntry) -> bool)
    requires
        distinct_ids(s),
    ensures
        distinct_ids(s.filter(p)),
        forall|k: int|
            0 <= k < s.filter(p).len() ==> p(#[trigger] s.filter(p)[k]) && s.contains(
                s.filter(p)[k],
            ),
    decreases s.len(),
{
    if s.len() > 0 {
        let r = s.drop_last();
        assert(distinct_ids(r)) by {
            assert forall|i: int, j: int| 0 <= i < j < r.len() implies r[i].id != r[j].id by {
                assert(r[i] == s[i] && r[j] == s[j]);
            }
        }
        lemma_filter_distinct(r, p);
        let f = r.filter(p);
        let x = s.last();
        assert(s =~= r.push(x));
        r.lemma_filter_push(x, p);
        assert forall|k: int| 0 <= k < f.len() implies exists|m: int|
            0 <= m < s.len() - 1 && s[m] == #[trigger] f[k] by {
            let m = choose|m: int| 0 <= m < r.len() && r[m] == f[k];
            assert(s[m] == r[m]);
        }
        if p(x) {
            assert(s.filter(p) == f.push(x));
            assert forall|i: int, j: int| 0 <= i < j < f.len() + 1 implies f.push(x)[i].id != f.push(
                x,
            )[j].id by {
                if j == f.len() {
                    let m = choose|m: int| 0 <= m < s.len() - 1 && s[m] == f[i];
                    assert(s[s.len() - 1] == x);
                }
            }
            assert forall|k: int| 0 <= k < f.len() + 1 implies p(#[trigger] f.push(x)[k])
                && s.contains(f.push(x)[k]) by {
                if k == f.len() {
                    assert(s[s.len() - 1] == x);
                } else {
                    let m = choose|m: int| 0 <= m < s.len() - 1 && s[m] == f[k];
                }
            }
        } else {
            assert(s.filter(p) == f);
            assert forall|k: int| 0 <= k < f.len() implies s.contains(#[trigger] f[k]) by {
                let m = choose|m: int| 0 <= m < s.len() - 1 && s[m] == f[k];
            }
        }
    }
}

/// Two cards of one deck's lists with the same id have the same state.
proof fn lemma_same_card_same_state(
    by_due: Seq<QueueEntry>,
    by_deck: Seq<QueueEntry>,
    a: QueueEntry,
    b: QueueEntry,
)
    requires
        consistent_cards(by_due, by_deck),
        by_due.contains(a),
        by_due.contains(b) || by_deck.contains(b),
        a.id == b.id,
    ensures
        a.state == b.state,
{
    let i = choose|i: int| 0 <= i < by_due.len() && by_due[i] == a;
    if by_due.contains(b) {
        let j = choose|j: int| 0 <= j < by_due.len() && by_due[j] == b;
        if i < j {
            assert(by_due[i].id != by_due[j].id);
        } else if j < i {
            assert(by_due[j].id != by_due[i].id);
        }
    } else {
        let j = choose|j: int| 0 <= j < by_deck.len() && by_deck[j] == b;
        assert(by_due[i].id == by_deck[j].id);
    }
}

/// The study queue offers no card twice and nothing but the deck's cards,
/// with the learning cards first, then the review cards, then the new ones,
/// when the two lists it is built from describe one deck's cards.
pub proof fn law_queue_has_no_repeats(
    by_due: Seq<QueueEntry>,
    by_deck: Seq<QueueEntry>,
    now: Seq<char>,
    learn_ahead: Seq<char>,
    review_until: Seq<char>,
    l: DailyLimits,
    limit: Option<i64>,
    ahead: int,
)
    requires
        consistent_cards(by_due, by_deck),
    ensures
        ({
            let q = queue(
                learning_due(by_due, now),
                learning_waiting(by_due, now, learn_ahead),
                reviews_due(by_due, review_until),
                new_cards(by_deck),
                l,
                limit,
                ahead,
            );
            &&& distinct_ids(q)
            &&& forall|k: int| 0 <= k < q.len() ==> by_due.contains(#[trigger] q[k]) || by_deck.contains(q[k])
            &&& forall|i: int, j: int| 0 <= i < j < q.len() ==> part_of(q[i]) <= part_of(q[j])
        }),
{
    let pl = |e: QueueEntry| selected(e, Pick::Learning, None, Some(now));
    let pw = |e: QueueEntry| selected(e, Pick::Learning, Some(now), Some(learn_ahead));
    let pr = |e: QueueEntry| selected(e, Pick::Review, None, Some(review_until));
    let pn = |e: QueueEntry| selected(e, Pick::New, None, None);
    let ld = learning_due(by_due, now);
    let lw = learning_waiting(by_due, now, learn_ahead);
    let rd = reviews_due(by_due, review_until);
    let nc = new_cards(by_deck);
    lemma_filter_distinct(by_due, pl);
    lemma_filter_distinct(by_due, pw);
    lemma_filter_distinct(by_due, pr);
    lemma_filter_distinct(by_deck, pn);
    let q = queue(ld, lw, rd, nc, l, limit, ahead);
    let due = due_queue(ld, rd, nc, l, limit, ahead);
    if due.len() == 0 {
        let w = lw.take(learning_taken(lw.len() as int, overall_limit(limit)));
        assert(q == w);
        assert forall|i: int, j: int| 0 <= i < j < q.len() implies q[i].id != q[j].id
            && part_of(q[i]) <= part_of(q[j]) by {
            assert(q[i] == lw[i] && q[j] == lw[j]);
            assert(pw(lw[i]) && pw(lw[j]));
        }
        assert forall|k: int| 0 <= k < q.len() implies by_due.contains(#[trigger] q[k])
            || by_deck.contains(q[k]) by {
            assert(q[k] == lw[k]);
        }
    } else {
        let a = ld.take(learning_taken(ld.len() as int, overall_limit(limit)));
        let b = rd.take(review_taken(ld.len() as int, rd.len() as int, l, limit, ahead));
        let c = nc.take(
            new_taken(ld.len() as int, rd.len() as int, nc.len() as int, l, limit, ahead),
        );
        assert(q == a + b + c);
        let na = a.len() as int;
        let nb = b.len() as int;
        assert forall|k: int| 0 <= k < q.len() implies {
            &&& (k < na ==> q[k] == ld[k] && pl(ld[k]) && by_due.contains(ld[k]))
            &&& (na <= k < na + nb ==> q[k] == rd[k - na] && pr(rd[k - na]) && by_due.contains(
                rd[k - na],
            ))
            &&& (na + nb <= k ==> q[k] == nc[k - na - nb] && pn(nc[k - na - nb])
                && by_deck.contains(nc[k - na - nb]))
        } by {
            if k < na {
                assert(q[k] == a[k]);
            } else if k < na + nb {
                assert(q[k] == b[k - na]);
            } else {
                assert(q[k] == c[k - na - nb]);
            }
        }
        assert forall|k: int| 0 <= k < q.len() implies by_due.contains(#[trigger] q[k])
            || by_deck.contains(q[k]) by {
            if k < na {
            } else if k < na + nb {
            } else {
            }
        }
        assert forall|i: int, j: int| 0 <= i < j < q.len() implies q[i].id != q[j].id
            && part_of(q[i]) <= part_of(q[j]) by {
            if i < na && j < na {
                assert(ld[i].id != ld[j].id);
            } else if na <= i < na + nb && na <= j < na + nb {
                assert(rd[i - na].id != rd[j - na].id);
            } else if na + nb <= i {
                assert(nc[i - na - nb].id != nc[j - na - nb].id);
            } else if q[i].id == q[j].id {
                lemma_same_card_same_state(by_due, by_deck, q[i], q[j]);
            }
        }
    }
}

/// `text_le` is transitive.
pub proof fn lemma_text_le_transitive(a: Seq<char>, b: Seq<char>, c: Seq<char>)
    requires
        text_le(a, b),
        text_le(b, c),
    ensures
        text_le(a, c),
    decreases a.len(),
{
    if a.len() > 0 && b.len() > 0 && c.len() > 0 && a[0] == b[0] && b[0] == c[0] {
        lemma_text_le_transitive(a.drop_first(), b.drop_first(), c.drop_first());
    }
}

/// What the statistics of an SR deck count, straight from its cards.
#[derive(Debug, Clone, Copy, PartialEq, Eq, Structural)]
pub struct DeckCounts {
    pub total: i64,
    /// Cards never studied.
    pub new: i64,
    /// Cards in learning or relearning.
    pub learning: i64,
    /// Cards in the review queue.
    pub review: i64,
    /// Learning and relearning cards due within the learn-ahead window.
    pub learning_due: i64,
    /// Review cards due now.
    pub review_due: i64,
    /// Reviews logged since the start of the day.
    pub reviewed_today: i64,
}

/// How many cards of `cards` are of the kind `pick` and due after `after`
/// and by `until` (when given).
pub open spec fn count_selected(
    cards: Seq<QueueEntry>,
    pick: Pick,
    after: Option<Seq<char>>,
    until: Option<Seq<char>>,
) -> int {
    cards.filter(|e: QueueEntry| selected(e, pick, after, until)).len() as int
}

/// The counts of an SR deck's cards: how many there are, in each state, and
/// how many learning cards are due within the learn-ahead window and review
/// cards due now; reviews logged today come from the log.
pub fn deck_counts(cards: &Vec<QueueEntry>, now: &str, learn_ahead: &str, reviewed_today: i64) -> (c:
    DeckCounts)
    requires
        cards.len() <= i64::MAX,
    ensures
        c.total == cards.len(),
        c.new == count_selected(cards@, Pick::New, None, None),
        c.learning == count_selected(cards@, Pick::Learning, None, None),
        c.review == count_selected(cards@, Pick::Review, None, None),
        c.learning_due == count_selected(cards@, Pick::Learning, None, Some(learn_ahead@)),
        c.review_due == count_selected(cards@, Pick::Review, None, Some(now@)),
        c.reviewed_today == reviewed_today,
{
    proof {
        cards@.lemma_filter_len(|e: QueueEntry| selected(e, Pick::New, None, None));
        cards@.lemma_filter_len(|e: QueueEntry| selected(e, Pick::Learning, None, None));
        cards@.lemma_filter_len(|e: QueueEntry| selected(e, Pick::Review, None, None));
        cards@.lemma_filter_len(
            |e: QueueEntry| selected(e, Pick::Learning, None, Some(learn_ahead@)),
        );
        cards@.lemma_filter_len(|e: QueueEntry| selected(e, Pick::Review, None, Some(now@)));
    }
    DeckCounts {
        total: cards.len() as i64,
        new: select(cards, Pick::New, None, None).len() as i64,
        learning: select(cards, Pick::Learning, None, None).len() as i64,
        review: select(cards, Pick::Review, None, None).len() as i64,
        learning_due: select(cards, Pick::Learning, None, Some(learn_ahead)).len() as i64,
        review_due: select(cards, Pick::Review, None, Some(now)).len() as i64,
        reviewed_today,
    }
}

/// The learning cards counted as due within the learn-ahead window are those
/// due now and those waiting in the window.
pub proof fn law_learning_due_splits(cards: Seq<QueueEntry>, now: Seq<char>, learn_ahead: Seq<char>)
    requires
        text_le(now, learn_ahead),
    ensures
        count_selected(cards, Pick::Learning, None, Some(learn_ahead)) == learning_due(
            cards,
            now,
        ).len() + learning_waiting(cards, now, learn_ahead).len(),
    decreases cards.len(),
{
    let p_ahead = |e: QueueEntry| selected(e, Pick::Learning, None, Some(learn_ahead));
    let p_now = |e: QueueEntry| selected(e, Pick::Learning, None, Some(now));
    let p_wait = |e: QueueEntry| selected(e, Pick::Learning, Some(now), Some(learn_ahead));
    if cards.len() == 0 {
        reveal(Seq::filter);
    } else {
        let rest = cards.drop_last();
        let e = cards.last();
        law_learning_due_splits(rest, now, learn_ahead);
        assert(cards =~= rest.push(e));
        rest.lemma_filter_push(e, p_ahead);
        rest.lemma_filter_push(e, p_now);
        rest.lemma_filter_push(e, p_wait);
        if text_le(e.due_at@, now) {
            lemma_text_le_transitive(e.due_at@, now, learn_ahead);
        }
    }
}

/// The cards ready to study now: every due learning card, and the due review
/// cards and new cards that today's limits still allow.
pub open spec fn ready_now(c: DeckCounts, l: DailyLimits) -> int {
    c.learning_due + min(c.review_due as int, reviews_left(l)) + min(c.new as int, new_left(l))
}

/// The statistics of an SR deck.
pub open spec fn deck_stats(c: DeckCounts, l: DailyLimits) -> SrDeckStats {
    SrDeckStats {
        total: c.total,
        due: ready_now(c, l) as i64,
        new: c.new,
        learning: c.learning,
        review: c.review,
        reviewed_today: c.reviewed_today,
        new_per_day: l.new_per_day,
        review_per_day: l.review_per_day,
        new_remaining_today: new_left(l) as i64,
        review_remaining_today: reviews_left(l) as i64,
    }
}

/// The statistics of an SR deck, straight from its cards: the total, the
/// remaining daily limits, and as due every learning card due within the
/// learn-ahead window, plus the review cards due now and the new cards that
/// today's limits still allow. This is what `deck_counts` followed by
/// `assemble_stats` gives.
pub proof fn law_stats_count_what_is_ready(
    cards: Seq<QueueEntry>,
    now: Seq<char>,
    learn_ahead: Seq<char>,
    c: DeckCounts,
    l: DailyLimits,
)
    requires
        limits_fit(l),
        c.total == cards.len(),
        c.new == count_selected(cards, Pick::New, None, None),
        c.learning == count_selected(cards, Pick::Learning, None, None),
        c.review == count_selected(cards, Pick::Review, None, None),
        c.learning_due == count_selected(cards, Pick::Learning, None, Some(learn_ahead)),
        c.review_due == count_selected(cards, Pick::Review, None, Some(now)),
        3 * cards.len() <= i64::MAX,
    ensures
        deck_stats(c, l).total == cards.len(),
        deck_stats(c, l).new_remaining_today == at_least_zero(l.new_per_day - l.new_studied_today),
        deck_stats(c, l).review_remaining_today == at_least_zero(
            l.review_per_day - l.reviews_today,
        ),
        deck_stats(c, l).due == count_selected(cards, Pick::Learning, None, Some(learn_ahead))
            + min(
            count_selected(cards, Pick::Review, None, Some(now)),
            deck_stats(c, l).review_remaining_today as int,
        ) + min(
            count_selected(cards, Pick::New, None, None),
            deck_stats(c, l).new_remaining_today as int,
        ),
        0 <= deck_stats(c, l).due <= 3 * cards.len(),
{
    cards.lemma_filter_len(|e: QueueEntry| selected(e, Pick::New, None, None));
    cards.lemma_filter_len(|e: QueueEntry| selected(e, Pick::Learning, None, Some(learn_ahead)));
    cards.lemma_filter_len(|e: QueueEntry| selected(e, Pick::Review, None, Some(now)));
}

/// The statistics count a deck's cards by state whatever their due time: as
/// many new, learning and review cards as the deck holds in those states,
/// however few of them are due.
pub proof fn law_stats_count_cards_by_state(
    cards: Seq<QueueEntry>,
    now: Seq<char>,
    learn_ahead: Seq<char>,
    c: DeckCounts,
    l: DailyLimits,
)
    requires
        c.total == cards.len(),
        c.new == count_selected(cards, Pick::New, None, None),
        c.learning == count_selected(cards, Pick::Learning, None, None),
        c.review == count_selected(cards, Pick::Review, None, None),
        c.learning_due == count_selected(cards, Pick::Learning, None, Some(learn_ahead)),
        c.review_due == count_selected(cards, Pick::Review, None, Some(now)),
    ensures
        deck_stats(c, l).total == cards.len(),
        deck_stats(c, l).new == count_selected(cards, Pick::New, None, None),
        deck_stats(c, l).learning == count_selected(cards, Pick::Learning, None, None),
        deck_stats(c, l).review == count_selected(cards, Pick::Review, None, None),
        deck_stats(c, l).review >= c.review_due,
        deck_stats(c, l).learning >= c.learning_due,
        deck_stats(c, l).new + deck_stats(c, l).learning + deck_stats(c, l).review
            <= deck_stats(c, l).total,
{
    lemma_count_due_within(cards, Pick::Review, now);
    lemma_count_due_within(cards, Pick::Learning, learn_ahead);
    lemma_counts_by_state_fit(cards);
}

/// The cards of a kind due by `until` are no more than the cards of that kind.
proof fn lemma_count_due_within(cards: Seq<QueueEntry>, pick: Pick, until: Seq<char>)
    ensures
        count_selected(cards, pick, None, Some(until)) <= count_selected(cards, pick, None, None),
    decreases cards.len(),
{
    if cards.len() > 0 {
        let rest = cards.drop_last();
        let e = cards.last();
        lemma_count_due_within(rest, pick, until);
        assert(cards =~= rest.push(e));
        rest.lemma_filter_push(e, |x: QueueEntry| selected(x, pick, None, Some(until)));
        rest.lemma_filter_push(e, |x: QueueEntry| selected(x, pick, None, None));
    } else {
        reveal(Seq::filter);
    }
}

/// The cards counted by state, new, learning and review, are no more than
/// the cards.
proof fn lemma_counts_by_state_fit(cards: Seq<QueueEntry>)
    ensures
        count_selected(cards, Pick::New, None, None) + count_selected(
            cards,
            Pick::Learning,
            None,
            None,
        ) + count_selected(cards, Pick::Review, None, None) <= cards.len(),
    decreases cards.len(),
{
    if cards.len() > 0 {
        let rest = cards.drop_last();
        let e = cards.last();
        lemma_counts_by_state_fit(rest);
        assert(cards =~= rest.push(e));
        rest.lemma_filter_push(e, |x: QueueEntry| selected(x, Pick::New, None, None));
        rest.lemma_filter_push(e, |x: QueueEntry| selected(x, Pick::Learning, None, None));
        rest.lemma_filter_push(e, |x: QueueEntry| selected(x, Pick::Review, None, None));
    } else {
        reveal(Seq::filter);
    }
}

/// Puts together the statistics of an SR deck from its counts and limits.
pub fn assemble_stats(counts: &DeckCounts, limits: &DailyLimits) -> (s: SrDeckStats)
    requires
        limits_fit(*limits),
        i64::MIN <= counts.learning_due + min(counts.review_due as int, reviews_left(*limits))
            <= i64::MAX,
        i64::MIN <= ready_now(*counts, *limits) <= i64::MAX,
    ensures
        s == deck_stats(*counts, *limits),
        s.due == ready_now(*counts, *limits),
        s.total == counts.total,
        s.new == counts.new,
        s.learning == counts.learning,
        s.review == counts.review,
        s.reviewed_today == counts.reviewed_today,
{
    let new_remaining_today = limits.new_remaining();
    let review_remaining_today = limits.review_remaining();
    let reviews = if counts.review_due < review_remaining_today {
        counts.review_due
    } else {
        review_remaining_today
    };
    let fresh = if counts.new < new_remaining_today {
        counts.new
    } else {
        new_remaining_today
    };
    SrDeckStats {
        total: counts.total,
        due: counts.learning_due + reviews + fresh,
        new: counts.new,
        learning: counts.learning,
        review: counts.review,
        reviewed_today: counts.reviewed_today,
        new_per_day: limits.new_per_day,
        review_per_day: limits.review_per_day,
        new_remaining_today,
        review_remaining_today,
    }
}

/// A study session never takes more new cards than today's new-card limit
/// leaves, nor (unless reviewing ahead) more reviews than the review limit
/// leaves, nor more cards in all than a non-negative overall limit.
pub proof fn law_queue_respects_limits<T>(
    learning: Seq<T>,
    waiting: Seq<T>,
    review: Seq<T>,
    fresh: Seq<T>,
    l: DailyLimits,
    limit: Option<i64>,
    ahead: int,
)
    ensures
        new_taken(learning.len() as int, review.len() as int, fresh.len() as int, l, limit, ahead)
            <= new_left(l),
        ahead <= 0 ==> review_taken(learning.len() as int, review.len() as int, l, limit, ahead)
            <= reviews_left(l),
        overall_limit(limit) >= 0 ==> queue(learning, waiting, review, fresh, l, limit, ahead).len()
            <= overall_limit(limit),
        due_queue(learning, review, fresh, l, limit, ahead).len() == learning_taken(
            learning.len() as int,
            overall_limit(limit),
        ) + review_taken(learning.len() as int, review.len() as int, l, limit, ahead)
            + new_taken(learning.len() as int, review.len() as int, fresh.len() as int, l, limit, ahead),
{
}

/// The number of cards a deck reports as due is the length of the queue it
/// offers, when the queue is built from exactly the learning, review and new
/// cards the statistics count, without reviewing ahead, within a large enough
/// overall limit, and no learning card waits in the learn-ahead window while
/// other cards are due.
pub proof fn law_due_count_is_queue_length<T>(
    learning: Seq<T>,
    waiting: Seq<T>,
    review: Seq<T>,
    fresh: Seq<T>,
    c: DeckCounts,
    l: DailyLimits,
    limit: Option<i64>,
)
    requires
        learning.len() + waiting.len() == c.learning_due,
        review.len() == c.review_due,
        fresh.len() == c.new,
        overall_limit(limit) >= learning.len() + waiting.len() + review.len() + fresh.len(),
        waiting.len() == 0 || due_queue(learning, review, fresh, l, limit, 0).len() == 0,
    ensures
        queue(learning, waiting, review, fresh, l, limit, 0).len() == ready_now(c, l),
{
}

/// Every learning step ends within the learn-ahead window, so a card graded
/// into (or kept in) learning comes back in the same session.
pub proof fn law_learning_steps_within_session(p: crate::srs::Progress, g: crate::srs::Grade)
    ensures
        crate::srs::next(p, g).due matches crate::srs::DueChange::Minutes(m) ==> m
            <= LEARN_AHEAD_MINUTES,
{
    crate::srs::law_due_follows_state(p, g);
}

/// The rounded quotient `m / d`, halves rounded up.
pub open spec fn rounded(m: int, d: int) -> int {
    (m + d / 2) / d
}

/// The position of the highest set bit of `n` (0 for 0 and 1).
pub open spec fn log2(n: nat) -> nat
    decreases n,
{
    if n < 2 {
        0
    } else {
        1 + log2(n / 2)
    }
}

pub open spec fn pow2(k: nat) -> nat
    decreases k,
{
    if k == 0 {
        1
    } else {
        2 * pow2((k - 1) as nat)
    }
}

/// `minutes` in tenths of a 365-day year, rounded the way `{:.1}` prints the
/// floating-point quotient `minutes / 525600`. Away from a halfway point that
/// is the nearest tenth. At a halfway point `(2t + 1) / 20` years, when
/// `2t + 1` is a multiple of 5 the quotient is exact (a multiple of 1/4) and
/// the tie goes to the even tenth; otherwise the printed value is the nearest
/// double to the quotient, which lies above it exactly when
/// `(2t + 1) * 2^(50 - e)` leaves 3 or 4 modulo 5, where
/// `2^e <= minutes / 525600 < 2^(e + 1)` (that double is the 53-bit rounding
/// of `(2t + 1) * 2^(50 - e) / 5`).
pub open spec fn year_tenths(minutes: int) -> int {
    let t = minutes / 52560;
    let r = minutes % 52560;
    if r > 26280 {
        t + 1
    } else if r < 26280 {
        t
    } else {
        let e = log2((minutes / 525600) as nat);
        if (2 * t + 1) % 5 == 0 {
            if t % 2 == 0 {
                t
            } else {
                t + 1
            }
        } else if ((2 * t + 1) * pow2((50 - e) as nat)) % 5 >= 3 {
            t + 1
        } else {
            t
        }
    }
}

/// A delay of `minutes` for people: minutes under an hour (at least one),
/// then whole hours, days (under 30), months of 30 days (under a year), and
/// years of 365 days with one decimal.
pub open spec fn humanised(minutes: int) -> Seq<char> {
    if minutes < 60 {
        decimal(if minutes < 1 {
            1
        } else {
            minutes
        }) + "m"@
    } else if minutes < 60 * 24 {
        decimal(rounded(minutes, 60)) + "h"@
    } else if minutes < 60 * 24 * 30 {
        decimal(rounded(minutes, 1440)) + "d"@
    } else if minutes < 60 * 24 * 365 {
        decimal(rounded(minutes, 43200)) + "mo"@
    } else {
        let tenths = year_tenths(minutes);
        decimal(tenths / 10) + "."@ + decimal(tenths % 10) + "y"@
    }
}

fn log2_of(n: u64) -> (e: u64)
    ensures
        e == log2(n as nat),
{
    proof {
        assert(pow2(64) == 0x1_0000_0000_0000_0000) by {
            reveal_with_fuel(pow2, 65);
        }
        lemma_log2_below(n as nat, 64);
    }
    let mut m = n;
    let mut e: u64 = 0;
    while m >= 2
        invariant
            log2(n as nat) == e + log2(m as nat),
            log2(n as nat) < 64,
            m <= n,
        decreases m,
    {
        m = m / 2;
        e = e + 1;
    }
    e
}

/// `2^k` modulo 5.
fn pow2_mod5(k: u64) -> (p: u64)
    ensures
        p == pow2(k as nat) % 5,
{
    let mut p: u64 = 1;
    let mut i: u64 = 0;
    while i < k
        invariant
            i <= k,
            p == pow2(i as nat) % 5,
        decreases k - i,
    {
        proof {
            vstd::arithmetic::div_mod::lemma_mul_mod_noop(2, pow2(i as nat) as int, 5);
        }
        p = (p * 2) % 5;
        i = i + 1;
    }
    p
}

/// The tenths of a year in a delay of at least a year.
fn tenths_of_years(minutes: i64) -> (t: i64)
    requires
        minutes >= 60 * 24 * 365,
    ensures
        t == year_tenths(minutes as int),
{
    let q = minutes / 52560;
    let r = minutes % 52560;
    if r > 26280 {
        q + 1
    } else if r < 26280 {
        q
    } else {
        let years = (minutes / 525600) as u64;
        let e = log2_of(years);
        assert(e <= 50) by {
            assert(pow2(51) == 0x8_0000_0000_0000) by {
                reveal_with_fuel(pow2, 52);
            }
            lemma_log2_below(years as nat, 51);
        }
        let p = pow2_mod5(50 - e);
        let odd = ((2 * (q % 5) + 1) % 5) as u64;
        proof {
            vstd::arithmetic::div_mod::lemma_mul_mod_noop(2 * q + 1, pow2((50 - e) as nat) as int, 5);
            assert((2 * q + 1) % 5 == odd) by (nonlinear_arith)
                requires
                    odd == (2 * (q % 5) + 1) % 5,
                    q >= 0,
            ;
        }
        if odd == 0 {
            return if q % 2 == 0 {
                q
            } else {
                q + 1
            };
        }
        assert(odd * p < 25) by (nonlinear_arith)
            requires
                odd < 5,
                p < 5,
        ;
        if (odd * p) % 5 >= 3 {
            q + 1
        } else {
            q
        }
    }
}

proof fn lemma_log2_below(n: nat, k: nat)
    requires
        k >= 1,
        n < pow2(k),
    ensures
        log2(n) < k,
    decreases k,
{
    if n >= 2 {
        assert(n / 2 < pow2((k - 1) as nat));
        if k >= 2 {
            lemma_log2_below(n / 2, (k - 1) as nat);
        } else {
            assert(pow2(1) == 2 * pow2(0));
        }
    }
}

/// Human readable delay until a card comes back, e.g. "10m" or "3d".
pub fn humanise(minutes: i64) -> (s: String)
    ensures
        s@ == humanised(minutes as int),
{
    proof {
        reveal_strlit("m");
        reveal_strlit("h");
        reveal_strlit("d");
        reveal_strlit("mo");
        reveal_strlit(".");
        reveal_strlit("y");
    }
    let mut s = String::new();
    if minutes < 60 {
        push_decimal(&mut s, if minutes < 1 {
            1
        } else {
            minutes
        });
        push_char(&mut s, 'm');
    } else if minutes < 60 * 24 {
        push_decimal(&mut s, (minutes + 30) / 60);
        push_char(&mut s, 'h');
    } else if minutes < 60 * 24 * 30 {
        push_decimal(&mut s, (minutes + 720) / 1440);
        push_char(&mut s, 'd');
    } else if minutes < 60 * 24 * 365 {
        push_decimal(&mut s, (minutes + 21600) / 43200);
        push_char(&mut s, 'm');
        push_char(&mut s, 'o');
    } else {
        let tenths = tenths_of_years(minutes);
        push_decimal(&mut s, tenths / 10);
        push_char(&mut s, '.');
        push_decimal(&mut s, tenths % 10);
        push_char(&mut s, 'y');
    }
    assert(s@ =~= humanised(minutes as int));
    s
}

} // verus!

//! Card numbering within a deck: renumbering after gaps appear, and moving a
//! card to a new position.
//!
//! A deck's cards are given as their ids and current indices. The functions
//! compute the index every card should have afterwards, in the same order as
//! they were given, so that the caller can store them.
use vstd::prelude::*;

use crate::error::{invalid_with, Error};

verus! {

/// A card's id and its 1-based index within its deck.
#[derive(Debug, Clone, Copy, PartialEq, Eq, Structural)]
pub struct CardPos {
    pub id: i64,
    pub idx: i64,
}

/// `a` comes before `b` when ordering by index, then by id.
pub open spec fn before(a: CardPos, b: CardPos) -> bool {
    a.idx < b.idx || (a.idx == b.idx && a.id < b.id)
}

/// Card `j` of `s` is ordered before card `k`; equal entries keep their order.
pub open spec fn precedes(s: Seq<CardPos>, j: int, k: int) -> bool {
    before(s[j], s[k]) || (s[j] == s[k] && j < k)
}

/// How many of the first `n` cards of `s` are ordered before card `k`.
pub open spec fn count_before(s: Seq<CardPos>, k: int, n: int) -> int
    decreases n,
{
    if n <= 0 {
        0
    } else {
        count_before(s, k, n - 1) + if precedes(s, n - 1, k) {
            1int
        } else {
            0int
        }
    }
}

/// The 0-based position of card `k` once the cards are ordered by index, then id.
pub open spec fn rank(s: Seq<CardPos>, k: int) -> int {
    count_before(s, k, s.len() as int)
}

/// Every card of `s` numbered 1..n in index order, ties broken by id.
pub open spec fn renumbered(s: Seq<CardPos>) -> Seq<CardPos> {
    Seq::new(s.len(), |k: int| CardPos { id: s[k].id, idx: (rank(s, k) + 1) as i64 })
}

proof fn lemma_count_before_bounds(s: Seq<CardPos>, k: int, n: int)
    requires
        0 <= n <= s.len(),
    ensures
        0 <= count_before(s, k, n) <= n,
        0 <= k < n ==> count_before(s, k, n) <= n - 1,
    decreases n,
{
    if n > 0 {
        lemma_count_before_bounds(s, k, n - 1);
    }
}

/// The new index of every card of a deck, numbering them 1..n in their
/// current order (by index, then id).
pub fn renumber(cards: &Vec<CardPos>) -> (out: Vec<CardPos>)
    requires
        cards.len() < i64::MAX,
    ensures
        out@ == renumbered(cards@),
{
    let n = cards.len();
    let mut out: Vec<CardPos> = Vec::new();
    for k in 0..n
        invariant
            n == cards.len() < i64::MAX,
            out@ == renumbered(cards@).take(k as int),
    {
        let mut r: i64 = 0;
        for j in 0..n
            invariant
                n == cards.len() < i64::MAX,
                0 <= k < n,
                r == count_before(cards@, k as int, j as int),
        {
            proof {
                lemma_count_before_bounds(cards@, k as int, j as int);
            }
            let a = cards[j];
            let b = cards[k];
            if a.idx < b.idx || (a.idx == b.idx && a.id < b.id) || (a.idx == b.idx && a.id == b.id
                && j < k) {
                r = r + 1;
            }
        }
        proof {
            lemma_count_before_bounds(cards@, k as int, n as int);
        }
        out.push(CardPos { id: cards[k].id, idx: r + 1 });
        assert(out@ =~= renumbered(cards@).take(k + 1));
    }
    assert(renumbered(cards@).take(n as int) =~= renumbered(cards@));
    out
}

proof fn lemma_count_before_monotone(s: Seq<CardPos>, a: int, b: int, n: int)
    requires
        0 <= a < s.len(),
        0 <= b < s.len(),
        0 <= n <= s.len(),
        precedes(s, a, b),
    ensures
        count_before(s, a, n) + (if a < n {
            1int
        } else {
            0int
        }) <= count_before(s, b, n),
    decreases n,
{
    if n > 0 {
        lemma_count_before_monotone(s, a, b, n - 1);
    }
}

proof fn lemma_count_before_normalized(s: Seq<CardPos>, k: int, n: int)
    requires
        forall|j: int| 0 <= j < s.len() ==> #[trigger] s[j].idx == j + 1,
        0 <= k < s.len(),
        0 <= n <= s.len(),
    ensures
        count_before(s, k, n) == if n < k {
            n
        } else {
            k
        },
    decreases n,
{
    if n > 0 {
        lemma_count_before_normalized(s, k, n - 1);
        assert(s[n - 1].idx == n);
        assert(s[k].idx == k + 1);
    }
}

/// Renumbering keeps the order of the cards: a card ordered before another
/// (by index, then id) still gets the smaller index.
pub proof fn law_renumber_keeps_order(s: Seq<CardPos>, a: int, b: int)
    requires
        s.len() < i64::MAX,
        0 <= a < s.len(),
        0 <= b < s.len(),
        before(s[a], s[b]),
    ensures
        renumbered(s)[a].idx < renumbered(s)[b].idx,
{
    lemma_count_before_monotone(s, a, b, s.len() as int);
    lemma_count_before_bounds(s, a, s.len() as int);
    lemma_count_before_bounds(s, b, s.len() as int);
}

/// Renumbering leaves neither duplicates nor gaps: the n cards get distinct
/// indices, all within 1..n.
pub proof fn law_renumber_distinct_in_range(s: Seq<CardPos>, a: int, b: int)
    requires
        s.len() < i64::MAX,
        0 <= a < s.len(),
        0 <= b < s.len(),
        a != b,
    ensures
        1 <= renumbered(s)[a].idx <= s.len(),
        renumbered(s)[a].idx != renumbered(s)[b].idx,
{
    lemma_count_before_bounds(s, a, s.len() as int);
    lemma_count_before_bounds(s, b, s.len() as int);
    if precedes(s, a, b) {
        lemma_count_before_monotone(s, a, b, s.len() as int);
    } else {
        assert(precedes(s, b, a));
        lemma_count_before_monotone(s, b, a, s.len() as int);
    }
}

/// A deck already numbered 1..n in order keeps its numbers.
pub proof fn law_renumber_keeps_numbered_deck(s: Seq<CardPos>)
    requires
        s.len() < i64::MAX,
        forall|j: int| 0 <= j < s.len() ==> #[trigger] s[j].idx == j + 1,
    ensures
        renumbered(s) == s,
{
    assert forall|k: int| 0 <= k < s.len() implies #[trigger] renumbered(s)[k] == s[k] by {
        lemma_count_before_normalized(s, k, s.len() as int);
    }
    assert(renumbered(s) =~= s);
}

/// The positions, among the first `n`, of the cards ordered before card `k`.
pub open spec fn preceding(s: Seq<CardPos>, k: int, n: int) -> Set<int> {
    Set::new(|j: int| 0 <= j < n && precedes(s, j, k))
}

proof fn lemma_count_is_len(s: Seq<CardPos>, k: int, n: int)
    requires
        0 <= n <= s.len(),
    ensures
        preceding(s, k, n).finite(),
        preceding(s, k, n).len() == count_before(s, k, n),
    decreases n,
{
    if n == 0 {
        assert(preceding(s, k, n) =~= Set::empty());
    } else {
        lemma_count_is_len(s, k, n - 1);
        if precedes(s, n - 1, k) {
            assert(preceding(s, k, n) =~= preceding(s, k, n - 1).insert(n - 1));
        } else {
            assert(preceding(s, k, n) =~= preceding(s, k, n - 1));
        }
    }
}

/// The indices of `s` are distinct and all within 1..n.
pub open spec fn numbered_1_to_n(s: Seq<CardPos>) -> bool {
    &&& forall|j: int| 0 <= j < s.len() ==> 1 <= #[trigger] s[j].idx <= s.len()
    &&& forall|i: int, j: int| 0 <= i < s.len() && 0 <= j < s.len() && i != j ==> s[i].idx != s[j].idx
}

/// When the indices are 1..n in some order, a card's rank is its index less one.
proof fn lemma_rank_of_numbered(m: Seq<CardPos>, k: int)
    requires
        0 <= k < m.len(),
        numbered_1_to_n(m),
    ensures
        rank(m, k) == m[k].idx - 1,
{
    let n = m.len() as int;
    let v = m[k].idx as int;
    let f = |j: int| m[j].idx as int;
    let all = vstd::set_lib::set_int_range(0, n);
    vstd::set_lib::lemma_int_range(0, n);
    vstd::set_lib::lemma_int_range(1, n + 1);
    vstd::set_lib::lemma_int_range(1, v);
    assert(vstd::relations::injective_on(f, all));
    vstd::set_lib::lemma_map_size(all, all.map(f), f);
    assert(all.map(f).subset_of(vstd::set_lib::set_int_range(1, n + 1))) by {
        assert forall|w: int| all.map(f).contains(w) implies vstd::set_lib::set_int_range(
            1,
            n + 1,
        ).contains(w) by {
            let j = choose|j: int| all.contains(j) && f(j) == w;
            assert(1 <= m[j].idx <= n);
        }
    }
    vstd::set_lib::lemma_subset_equality(all.map(f), vstd::set_lib::set_int_range(1, n + 1));
    let a = preceding(m, k, n);
    lemma_count_is_len(m, k, n);
    assert forall|w: int| #[trigger] a.map(f).contains(w) <==> vstd::set_lib::set_int_range(
        1,
        v,
    ).contains(w) by {
        if vstd::set_lib::set_int_range(1, v).contains(w) {
            assert(vstd::set_lib::set_int_range(1, n + 1).contains(w));
            assert(all.map(f).contains(w));
            let j = choose|j: int| all.contains(j) && f(j) == w;
            assert(j != k);
            assert(a.contains(j));
        }
        if a.map(f).contains(w) {
            let j = choose|j: int| a.contains(j) && f(j) == w;
            assert(precedes(m, j, k));
            if j != k {
                assert(m[j].idx != m[k].idx);
            }
            assert(1 <= m[j].idx);
        }
    }
    assert(a.map(f) =~= vstd::set_lib::set_int_range(1, v));
    assert(vstd::relations::injective_on(f, a));
    vstd::set_lib::lemma_map_size(a, a.map(f), f);
}

/// Renumbering a deck whose indices are 1..n in some order changes nothing.
pub proof fn law_renumber_keeps_permuted_numbers(s: Seq<CardPos>)
    requires
        s.len() < i64::MAX,
        numbered_1_to_n(s),
    ensures
        renumbered(s) == s,
{
    assert forall|k: int| 0 <= k < s.len() implies #[trigger] renumbered(s)[k] == s[k] by {
        lemma_rank_of_numbered(s, k);
    }
    assert(renumbered(s) =~= s);
}

/// Renumbering twice is renumbering once.
pub proof fn law_renumber_idempotent(s: Seq<CardPos>)
    requires
        s.len() < i64::MAX,
    ensures
        renumbered(renumbered(s)) == renumbered(s),
{
    let r = renumbered(s);
    assert forall|i: int, j: int|
        0 <= i < s.len() && 0 <= j < s.len() && i != j implies r[i].idx != r[j].idx by {
        law_renumber_distinct_in_range(s, i, j);
    }
    assert forall|j: int| 0 <= j < s.len() implies 1 <= #[trigger] r[j].idx <= s.len() by {
        if s.len() > 1 {
            let other = if j == 0 {
                1
            } else {
                0
            };
            law_renumber_distinct_in_range(s, j, other);
        } else {
            lemma_count_before_bounds(s, j, s.len() as int);
        }
    }
    law_renumber_keeps_permuted_numbers(r);
}

/// `p` is the first position of `s` holding the card `id`.
pub open spec fn is_first(s: Seq<CardPos>, id: i64, p: int) -> bool {
    &&& 0 <= p < s.len()
    &&& s[p].id == id
    &&& forall|j: int| 0 <= j < p ==> s[j].id != id
}

/// `s` holds the card `id`.
pub open spec fn has_card(s: Seq<CardPos>, id: i64) -> bool {
    exists|j: int| 0 <= j < s.len() && s[j].id == id
}

/// The position a card is moved to: the requested one, kept within the deck.
pub open spec fn clamp_target(to_index: int, count: int) -> int {
    let hi = if count > 1 {
        count
    } else {
        1
    };
    if to_index < 1 {
        1
    } else if to_index > hi {
        hi
    } else {
        to_index
    }
}

/// A card after the card `id` moved from index `current` to `target`: the
/// moved card takes `target`, the cards in between shift by one towards the
/// gap it leaves, and the others stay.
pub open spec fn shifted(c: CardPos, id: i64, current: int, target: int) -> CardPos {
    if c.id == id {
        CardPos { id: c.id, idx: target as i64 }
    } else if target < current && target <= c.idx < current {
        CardPos { id: c.id, idx: (c.idx + 1) as i64 }
    } else if target > current && current < c.idx <= target {
        CardPos { id: c.id, idx: (c.idx - 1) as i64 }
    } else {
        c
    }
}

/// The index the card `id` of `s` has.
pub open spec fn current_index(s: Seq<CardPos>, id: i64) -> int {
    s[choose|p: int| is_first(s, id, p)].idx as int
}

/// The cards of `s` once the card `id` has moved to `to_index` (kept within
/// the deck), before they are renumbered.
pub open spec fn moved(s: Seq<CardPos>, id: i64, to_index: int) -> Seq<CardPos> {
    let current = current_index(s, id);
    let target = clamp_target(to_index, s.len() as int);
    if target == current {
        s
    } else {
        Seq::new(s.len(), |k: int| shifted(s[k], id, current, target))
    }
}

/// Moves the card `id` to a new 1-based position within its deck, given as
/// `cards`, and returns the new index of every card of the deck.
pub fn move_within_deck(cards: &Vec<CardPos>, id: i64, to_index: i64) -> (r: Result<
    Vec<CardPos>,
    Error,
>)
    requires
        cards.len() < i64::MAX,
    ensures
        !has_card(cards@, id) ==> r is Err && invalid_with(r->Err_0, "card not found"@),
        has_card(cards@, id) ==> r is Ok && r->Ok_0@ == renumbered(
            moved(cards@, id, to_index as int),
        ),
{
    let n = cards.len();
    let mut p: usize = 0;
    while p < n && cards[p].id != id
        invariant
            p <= n == cards.len(),
            forall|j: int| 0 <= j < p ==> cards@[j].id != id,
        decreases n - p,
    {
        p = p + 1;
    }
    if p == n {
        return Err(Error::invalid("card not found"));
    }
    let ghost s = cards@;
    assert(is_first(s, id, p as int));
    assert(has_card(s, id));
    let ghost q = choose|q: int| is_first(s, id, q);
    assert(p == q) by {
        if (q < p) {
            assert(s[q].id != id);
        } else if (p < q) {
            assert(s[p as int].id != id);
        }
    }
    let current = cards[p].idx;
    let count = n as i64;
    let hi = if count > 1 {
        count
    } else {
        1
    };
    let target = if to_index < 1 {
        1
    } else if to_index > hi {
        hi
    } else {
        to_index
    };
    if target == current {
        return Ok(renumber(cards));
    }
    let mut shifted_cards: Vec<CardPos> = Vec::new();
    for k in 0..n
        invariant
            n == cards.len(),
            s == cards@,
            target != current,
            shifted_cards@ == Seq::new(n as nat, |k: int| shifted(s[k], id, current as int, target as int)).take(k as int),
    {
        let c = cards[k];
        let d = if c.id == id {
            CardPos { id: c.id, idx: target }
        } else if target < current && target <= c.idx && c.idx < current {
            CardPos { id: c.id, idx: c.idx + 1 }
        } else if target > current && current < c.idx && c.idx <= target {
            CardPos { id: c.id, idx: c.idx - 1 }
        } else {
            c
        };
        shifted_cards.push(d);
        assert(shifted_cards@ =~= Seq::new(n as nat, |k: int| shifted(s[k], id, current as int, target as int)).take(k + 1));
    }
    assert(shifted_cards@ =~= moved(s, id, to_index as int));
    Ok(renumber(&shifted_cards))
}


/// The new index of the card at 0-based position `k` of a deck numbered 1..n
/// in order, when the card at position `p` moves to index `t`.
pub open spec fn moved_position(k: int, p: int, t: int) -> int {
    if k == p {
        t
    } else if t <= p && t - 1 <= k < p {
        k + 2
    } else if t > p + 1 && p < k <= t - 1 {
        k
    } else {
        k + 1
    }
}

/// Moving a card in a deck numbered 1..n in order takes it out and puts it
/// back at the requested position (kept within the deck); the cards in
/// between shift by one and the deck stays numbered 1..n.
pub proof fn law_move_reinserts_card(s: Seq<CardPos>, id: i64, to_index: int, p: int)
    requires
        s.len() < i64::MAX,
        forall|j: int| 0 <= j < s.len() ==> #[trigger] s[j].idx == j + 1,
        forall|i: int, j: int| 0 <= i < j < s.len() ==> s[i].id != s[j].id,
        0 <= p < s.len(),
        s[p].id == id,
    ensures
        renumbered(moved(s, id, to_index)) == Seq::new(
            s.len(),
            |k: int|
                CardPos {
                    id: s[k].id,
                    idx: moved_position(k, p, clamp_target(to_index, s.len() as int)) as i64,
                },
        ),
{
    let n = s.len() as int;
    let t = clamp_target(to_index, n);
    assert(is_first(s, id, p));
    let q = choose|q: int| is_first(s, id, q);
    assert(q == p) by {
        if q < p {
            assert(s[q].id != id);
        } else if p < q {
            assert(s[p].id != s[q].id);
        }
    }
    let expected = Seq::new(
        s.len(),
        |k: int| CardPos { id: s[k].id, idx: moved_position(k, p, t) as i64 },
    );
    let m = moved(s, id, to_index);
    if t == p + 1 {
        law_renumber_keeps_numbered_deck(s);
        assert(m =~= expected);
    } else {
        assert forall|k: int| 0 <= k < n implies #[trigger] m[k] == expected[k] by {
            if k != p {
                assert(s[k].id != id);
            }
        }
        assert(m =~= expected);
        assert(numbered_1_to_n(m));
        law_renumber_keeps_permuted_numbers(m);
    }
}

} // verus!

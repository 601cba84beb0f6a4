use flashcards::error::Error;
use flashcards::sr::{
    assemble_stats, check_daily_limits, compose_queue, humanise, limit_bump, review_ahead,
    DailyLimits, DeckCounts,
};

fn limits(new_per_day: i64, review_per_day: i64, new_done: i64, reviews_done: i64) -> DailyLimits {
    DailyLimits {
        new_per_day,
        review_per_day,
        new_studied_today: new_done,
        reviews_today: reviews_done,
    }
}

#[test]
fn humanises_delays() {
    assert_eq!(humanise(0), "1m");
    assert_eq!(humanise(10), "10m");
    assert_eq!(humanise(90), "2h");
    assert_eq!(humanise(1440), "1d");
    assert_eq!(humanise(1440 * 45), "2mo");
    assert_eq!(humanise(1440 * 400), "1.1y");
}

#[test]
fn humanise_rounds_halves_up_and_floors_at_a_minute() {
    assert_eq!(humanise(-30), "1m");
    assert_eq!(humanise(59), "59m");
    assert_eq!(humanise(60), "1h");
    assert_eq!(humanise(89), "1h");
    assert_eq!(humanise(1439), "24h");
    assert_eq!(humanise(1440 * 4), "4d");
    assert_eq!(humanise(525_600), "1.0y");
    assert_eq!(humanise(525_600 * 12), "12.0y");
}

#[test]
fn remaining_limits_never_go_negative() {
    let l = limits(20, 200, 25, 50);
    assert_eq!(l.new_remaining(), 0);
    assert_eq!(l.review_remaining(), 150);
}

#[test]
fn the_queue_takes_learning_then_reviews_then_new_cards() {
    let q = compose_queue(vec![1, 2], vec![], vec![10, 11, 12], vec![20, 21, 22], &limits(2, 2, 0, 0), None, None);
    assert_eq!(q, [1, 2, 10, 11, 20, 21]);
}

#[test]
fn new_cards_trickle_in_by_what_is_left_today() {
    let q = compose_queue(Vec::<i32>::new(), vec![], vec![], (1..=10).collect(), &limits(3, 200, 0, 0), None, None);
    assert_eq!(q, [1, 2, 3]);
    let spent = compose_queue(Vec::<i32>::new(), vec![], vec![], (4..=10).collect(), &limits(3, 200, 3, 0), None, None);
    assert!(spent.is_empty());
    let bumped = compose_queue(Vec::<i32>::new(), vec![], vec![], (4..=10).collect(), &limits(5, 200, 3, 0), None, None);
    assert_eq!(bumped, [4, 5]);
}

#[test]
fn a_card_just_failed_waits_while_other_cards_are_due() {
    // The failed card (1) is due in a minute; two new cards are still to study.
    let q = compose_queue(vec![], vec![1], vec![], vec![2, 3], &limits(20, 200, 1, 0), None, None);
    assert_eq!(q, [2, 3]);
    // With nothing else left, it comes forward within the session.
    let q = compose_queue(vec![], vec![1], vec![], vec![], &limits(20, 200, 2, 0), None, None);
    assert_eq!(q, [1]);
    let q = compose_queue(vec![], vec![1, 4], vec![], vec![5], &limits(20, 200, 20, 0), Some(1), None);
    assert_eq!(q, [1]);
}

#[test]
fn the_overall_limit_caps_every_part() {
    let q = compose_queue(vec![1, 2, 3], vec![], vec![10, 11], vec![20], &limits(9, 9, 0, 0), Some(4), None);
    assert_eq!(q, [1, 2, 3, 10]);
    let unlimited = compose_queue(vec![1, 2, 3], vec![], vec![10], vec![20], &limits(9, 9, 0, 0), Some(-1), None);
    assert_eq!(unlimited, [1, 2, 3]);
}

#[test]
fn reviewing_ahead_lifts_the_review_cap() {
    let capped = compose_queue(Vec::<i32>::new(), vec![], vec![10, 11, 12], vec![], &limits(0, 1, 0, 0), None, None);
    assert_eq!(capped, [10]);
    let ahead = compose_queue(Vec::<i32>::new(), vec![], vec![10, 11, 12], vec![], &limits(0, 1, 0, 0), None, Some(5));
    assert_eq!(ahead, [10, 11, 12]);
    assert_eq!(review_ahead(Some(-3)), 0);
    assert_eq!(review_ahead(None), 0);
    assert_eq!(review_ahead(Some(5)), 5);
}

#[test]
fn stats_count_what_the_queue_offers() {
    let counts = DeckCounts {
        total: 12,
        new: 10,
        learning: 1,
        review: 1,
        learning_due: 1,
        review_due: 1,
        reviewed_today: 4,
    };
    let l = limits(3, 200, 0, 0);
    let stats = assemble_stats(&counts, &l);
    assert_eq!(stats.due, 5);
    assert_eq!(stats.new, 10);
    assert_eq!(stats.new_remaining_today, 3);
    assert_eq!(stats.review_remaining_today, 200);
    assert_eq!(stats.new_per_day, 3);
    let q = compose_queue(vec![0], vec![], vec![0], vec![0; 10], &l, None, None);
    assert_eq!(q.len() as i64, stats.due);
}

#[test]
fn limits_must_not_be_negative() {
    assert_eq!(
        check_daily_limits(-1, 5).unwrap_err(),
        Error::Invalid("limits cannot be negative".into())
    );
    assert!(check_daily_limits(0, 0).is_ok());
    assert_eq!(limit_bump(-4), 0);
    assert_eq!(limit_bump(2), 2);
}

/// The delay formatting as floating-point arithmetic computes it.
fn humanise_with_floats(minutes: i64) -> String {
    if minutes < 60 {
        format!("{}m", minutes.max(1))
    } else if minutes < 60 * 24 {
        format!("{}h", (minutes as f64 / 60.0).round() as i64)
    } else if minutes < 60 * 24 * 30 {
        format!("{}d", (minutes as f64 / 1440.0).round() as i64)
    } else if minutes < 60 * 24 * 365 {
        format!("{}mo", (minutes as f64 / 43_200.0).round() as i64)
    } else {
        format!("{:.1}y", minutes as f64 / 525_600.0)
    }
}

#[test]
fn humanise_agrees_with_float_formatting() {
    let mut samples: Vec<i64> = (-100..100_000).collect();
    samples.extend((100_000..30_000_000).step_by(997));
    for k in 0..20_000i64 {
        let halfway = 52_560 * k + 26_280;
        samples.extend([halfway - 1, halfway, halfway + 1]);
    }
    samples.extend([i64::MAX, i64::MAX / 3, 1 << 40, (1 << 40) + 26_280]);
    for m in samples {
        assert_eq!(humanise(m), humanise_with_floats(m), "minutes = {m}");
    }
}

use flashcards::sr::{deck_counts, study_queue, text_at_most, QueueEntry};
use flashcards::srs::State;

fn entry(id: i64, state: &str, due_at: &str) -> QueueEntry {
    QueueEntry {
        id,
        state: State::from_name(state),
        due_at: due_at.into(),
    }
}

const NOW: &str = "2026-01-01T12:00:00Z";
const AHEAD: &str = "2026-01-01T12:20:00Z";

fn ids(q: &[QueueEntry]) -> Vec<i64> {
    q.iter().map(|e| e.id).collect()
}

#[test]
fn only_due_cards_reach_the_queue() {
    let by_due = vec![
        entry(1, "review", "2026-01-01T11:00:00Z"),
        entry(2, "learning", "2026-01-01T11:30:00Z"),
        entry(3, "new", "2026-01-01T11:45:00Z"),
        entry(4, "relearning", "2026-01-01T12:00:00Z"),
        entry(5, "learning", "2026-01-01T12:05:00Z"),
        entry(6, "review", "2026-01-05T12:00:00Z"),
        entry(7, "bogus", "2026-01-01T00:00:00Z"),
    ];
    let by_deck = vec![
        entry(7, "bogus", "2026-01-01T00:00:00Z"),
        entry(3, "new", "2026-01-01T11:45:00Z"),
    ];
    let l = limits(20, 200, 0, 0);
    let q = study_queue(&by_due, &by_deck, NOW, AHEAD, NOW, &l, None, None);
    assert_eq!(ids(&q), [2, 4, 1, 3]);
    // Reviewing ahead reaches the review card due in four days.
    let q = study_queue(&by_due, &by_deck, NOW, AHEAD, "2026-01-06T12:00:00Z", &l, None, Some(5));
    assert_eq!(ids(&q), [2, 4, 1, 6, 3]);
    // With nothing due, the card waiting in the learn-ahead window comes forward.
    let waiting_only = vec![entry(5, "learning", "2026-01-01T12:05:00Z"), entry(6, "review", "2026-01-05T12:00:00Z")];
    let q = study_queue(&waiting_only, &vec![], NOW, AHEAD, NOW, &l, None, None);
    assert_eq!(ids(&q), [5]);
}

#[test]
fn deck_counts_follow_the_states_and_due_times() {
    let cards = vec![
        entry(1, "review", "2026-01-01T11:00:00Z"),
        entry(2, "learning", "2026-01-01T11:30:00Z"),
        entry(3, "new", "2026-01-01T11:45:00Z"),
        entry(5, "learning", "2026-01-01T12:05:00Z"),
        entry(6, "review", "2026-01-05T12:00:00Z"),
        entry(8, "learning", "2026-01-01T13:00:00Z"),
    ];
    let c = deck_counts(&cards, NOW, AHEAD, 4);
    assert_eq!(c.total, 6);
    assert_eq!(c.new, 1);
    assert_eq!(c.learning, 3);
    assert_eq!(c.review, 2);
    assert_eq!(c.learning_due, 2);
    assert_eq!(c.review_due, 1);
    assert_eq!(c.reviewed_today, 4);
}

#[test]
fn timestamps_compare_as_text() {
    assert!(text_at_most("2026-01-01T11:00:00Z", NOW));
    assert!(text_at_most(NOW, NOW));
    assert!(!text_at_most(AHEAD, NOW));
    assert!(text_at_most("2026", NOW));
    assert!(!text_at_most(NOW, "2026"));
    assert_eq!(State::from_name("relearning"), Some(State::Relearning));
    assert_eq!(State::from_name("Review"), None);
}

use flashcards::sr::new_members;

#[test]
fn adding_an_overlapping_slice_brings_in_only_what_is_missing() {
    let members = vec![3, 4, 5];
    assert_eq!(new_members(&members, &vec![4, 5, 6, 7]), [6, 7]);
    assert_eq!(new_members(&members, &vec![7, 7, 3, 8]), [7, 8]);
    assert!(new_members(&members, &vec![]).is_empty());
}

use flashcards::sr::study_queue_fits;

#[test]
fn the_queue_arithmetic_is_checked_before_building() {
    let by_due = vec![entry(2, "learning", "2026-01-01T11:30:00Z")];
    assert!(study_queue_fits(&by_due, NOW, &limits(20, 200, 0, 0), None));
    assert!(study_queue_fits(&by_due, NOW, &limits(20, 200, 0, 0), Some(i64::MIN + 1)));
    assert!(!study_queue_fits(&by_due, NOW, &limits(20, 200, 0, 0), Some(i64::MIN)));
    assert!(!study_queue_fits(&by_due, NOW, &limits(i64::MIN, 200, 1, 0), None));
}

#[test]
fn the_queue_offers_each_card_once_learning_first() {
    let by_due = vec![
        entry(8, "new", "2026-01-01T09:00:00Z"),
        entry(4, "review", "2026-01-01T10:00:00Z"),
        entry(9, "relearning", "2026-01-01T10:30:00Z"),
        entry(2, "learning", "2026-01-01T11:00:00Z"),
        entry(5, "review", "2026-01-01T11:59:59Z"),
    ];
    let by_deck = vec![
        entry(5, "review", "2026-01-01T11:59:59Z"),
        entry(8, "new", "2026-01-01T09:00:00Z"),
        entry(2, "learning", "2026-01-01T11:00:00Z"),
        entry(4, "review", "2026-01-01T10:00:00Z"),
        entry(9, "relearning", "2026-01-01T10:30:00Z"),
    ];
    let q = study_queue(&by_due, &by_deck, NOW, AHEAD, NOW, &limits(20, 200, 0, 0), None, None);
    assert_eq!(ids(&q), [9, 2, 4, 5, 8]);
    let mut seen = ids(&q);
    seen.sort();
    seen.dedup();
    assert_eq!(seen.len(), q.len());
}

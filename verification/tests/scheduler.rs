use flashcards::srs::{
    review, DueChange, EaseChange, Grade, IntervalChange, Progress, State, Transition,
};

fn fresh() -> Progress {
    Progress {
        state: State::New,
        step: 0,
        reps: 0,
        lapses: 0,
    }
}

fn in_review() -> Progress {
    Progress {
        state: State::Review,
        step: 0,
        reps: 3,
        lapses: 0,
    }
}

#[test]
fn new_card_walks_the_learning_steps() {
    let first = review(fresh(), Grade::Good);
    assert_eq!(first.progress.state, State::Learning);
    assert_eq!(first.progress.step, 1);
    assert_eq!(first.due, DueChange::Minutes(10));
    assert_eq!(first.interval, IntervalChange::Keep);

    let second = review(first.progress, Grade::Good);
    assert_eq!(second.progress.state, State::Review);
    assert_eq!(second.progress.step, 0);
    assert_eq!(second.progress.reps, 2);
    assert_eq!(second.interval, IntervalChange::Graduate(1));
    assert_eq!(second.due, DueChange::Interval);
}

#[test]
fn again_restarts_the_learning_steps() {
    let card = review(fresh(), Grade::Good).progress;
    let card = review(card, Grade::Again);
    assert_eq!(card.progress.state, State::Learning);
    assert_eq!(card.progress.step, 0);
    assert_eq!(card.due, DueChange::Minutes(1));
}

#[test]
fn hard_repeats_the_current_learning_step() {
    let card = review(fresh(), Grade::Good).progress;
    let again = review(card, Grade::Hard);
    assert_eq!(again.progress.state, State::Learning);
    assert_eq!(again.progress.step, 1);
    assert_eq!(again.due, DueChange::Minutes(10));
    let out_of_range = Progress { step: 7, ..card };
    assert_eq!(review(out_of_range, Grade::Hard).due, DueChange::Minutes(10));
    let negative = Progress { step: -3, ..card };
    assert_eq!(review(negative, Grade::Hard).due, DueChange::Minutes(1));
}

#[test]
fn easy_skips_straight_to_review() {
    let card = review(fresh(), Grade::Easy);
    assert_eq!(card.progress.state, State::Review);
    assert_eq!(card.interval, IntervalChange::Graduate(4));
    assert_eq!(card.ease, EaseChange::Keep);
}

/// The library decides which interval and ease rule a grade applies; the
/// floating-point values themselves (such as 10 days times an ease of 2.5
/// giving 25) are computed by the application from these rule tags, so this
/// test checks the rule that is chosen.
#[test]
fn good_multiplies_the_interval_by_the_ease() {
    let good = review(in_review(), Grade::Good);
    assert_eq!(
        good,
        Transition {
            progress: Progress { reps: 4, ..in_review() },
            ease: EaseChange::Keep,
            interval: IntervalChange::Good,
            due: DueChange::Interval,
        }
    );
}

/// The library decides which interval and ease rule a grade applies; the
/// floating-point values themselves (such as 10 days times an ease of 2.5
/// giving 25) are computed by the application from these rule tags, so this
/// test checks the rule that is chosen.
#[test]
fn hard_grows_slowly_and_lowers_the_ease() {
    let hard = review(in_review(), Grade::Hard);
    assert_eq!(hard.ease, EaseChange::Shift(-15));
    assert_eq!(hard.interval, IntervalChange::Hard);
    assert_eq!(hard.progress.state, State::Review);
}

#[test]
fn easy_in_review_raises_the_ease() {
    let easy = review(in_review(), Grade::Easy);
    assert_eq!(easy.ease, EaseChange::Shift(15));
    assert_eq!(easy.interval, IntervalChange::Easy);
}

/// The library decides which interval and ease rule a grade applies; the
/// floating-point values themselves (such as 10 days times an ease of 2.5
/// giving 25) are computed by the application from these rule tags, so this
/// test checks the rule that is chosen.
#[test]
fn lapse_halves_the_interval_and_relearns() {
    let lapsed = review(in_review(), Grade::Again);
    assert_eq!(lapsed.progress.state, State::Relearning);
    assert_eq!(lapsed.progress.lapses, 1);
    assert_eq!(lapsed.progress.step, 0);
    assert_eq!(lapsed.ease, EaseChange::Shift(-20));
    assert_eq!(lapsed.interval, IntervalChange::Lapse);
    assert_eq!(lapsed.due, DueChange::Minutes(10));

    // Relearning graduates back to review with the shortened interval.
    let relearned = review(lapsed.progress, Grade::Good);
    assert_eq!(relearned.progress.state, State::Review);
    assert_eq!(relearned.interval, IntervalChange::Relearned);
    assert_eq!(relearned.progress.lapses, 1);
    let relearned_easy = review(lapsed.progress, Grade::Easy);
    assert_eq!(relearned_easy.interval, IntervalChange::RelearnedEasy);
}

#[test]
fn states_and_grades_have_stable_names_and_numbers() {
    for state in [State::New, State::Learning, State::Review, State::Relearning] {
        assert_eq!(State::parse(state.as_str()), state);
    }
    assert_eq!(State::Relearning.as_str(), "relearning");
    assert_eq!(State::parse("bogus"), State::New);
    assert_eq!(Grade::Again.as_i64(), 0);
    assert_eq!(Grade::Hard.as_i64(), 1);
    assert_eq!(Grade::Good.as_i64(), 2);
    assert_eq!(Grade::Easy.as_i64(), 3);
}

//! The decisions of the SM-2 style scheduler with learning / relearning steps.
//!
//! A review takes the previous schedule and a grade. This module decides
//! everything about the next schedule that is not floating-point arithmetic:
//! the next state, the learning step, the repetition and lapse counters, how
//! the ease moves (in hundredths), which rule gives the next interval, and
//! whether the card comes back after a learning step or after its interval.
//! The caller applies the ease and interval rules to its real-valued fields.
use vstd::prelude::*;

use crate::text::str_eq;

verus! {

/// How well a card was remembered.
#[derive(Debug, Clone, Copy, PartialEq, Eq, Structural)]
pub enum Grade {
    Again,
    Hard,
    Good,
    Easy,
}

impl Grade {
    /// The grade as stored in the review log.
    pub fn as_i64(self) -> (n: i64)
        ensures
            n == grade_number(self),
    {
        match self {
            Grade::Again => 0,
            Grade::Hard => 1,
            Grade::Good => 2,
            Grade::Easy => 3,
        }
    }
}

/// The number a grade is logged under: 0 for `Again` up to 3 for `Easy`.
pub open spec fn grade_number(g: Grade) -> int {
    match g {
        Grade::Again => 0,
        Grade::Hard => 1,
        Grade::Good => 2,
        Grade::Easy => 3,
    }
}

/// Where a card stands in the scheduler.
#[derive(Debug, Clone, Copy, PartialEq, Eq, Structural)]
pub enum State {
    New,
    Learning,
    Review,
    Relearning,
}

/// The name a state is stored under.
pub open spec fn state_name(s: State) -> Seq<char> {
    match s {
        State::New => "new"@,
        State::Learning => "learning"@,
        State::Review => "review"@,
        State::Relearning => "relearning"@,
    }
}

/// The state a stored name stands for; anything unknown reads as `New`.
pub open spec fn state_named(name: Seq<char>) -> State {
    if name == "learning"@ {
        State::Learning
    } else if name == "review"@ {
        State::Review
    } else if name == "relearning"@ {
        State::Relearning
    } else {
        State::New
    }
}

impl State {
    pub fn as_str(self) -> (s: &'static str)
        ensures
            s@ == state_name(self),
    {
        match self {
            State::New => "new",
            State::Learning => "learning",
            State::Review => "review",
            State::Relearning => "relearning",
        }
    }

    pub fn parse(value: &str) -> (s: State)
        ensures
            s == state_named(value@),
    {
        if str_eq(value, "learning") {
            State::Learning
        } else if str_eq(value, "review") {
            State::Review
        } else if str_eq(value, "relearning") {
            State::Relearning
        } else {
            State::New
        }
    }
}

/// The state stored under exactly this name, if any.
pub open spec fn state_exactly_named(name: Seq<char>) -> Option<State> {
    if name == "new"@ {
        Some(State::New)
    } else if name == "learning"@ {
        Some(State::Learning)
    } else if name == "review"@ {
        Some(State::Review)
    } else if name == "relearning"@ {
        Some(State::Relearning)
    } else {
        None
    }
}

impl State {
    /// The state stored under exactly this name; `None` for any other text.
    pub fn from_name(value: &str) -> (s: Option<State>)
        ensures
            s == state_exactly_named(value@),
    {
        if str_eq(value, "new") {
            Some(State::New)
        } else if str_eq(value, "learning") {
            Some(State::Learning)
        } else if str_eq(value, "review") {
            Some(State::Review)
        } else if str_eq(value, "relearning") {
            Some(State::Relearning)
        } else {
            None
        }
    }
}

/// Reading back the name of a state gives the state.
pub proof fn law_state_name_round_trip(s: State)
    ensures
        state_named(state_name(s)) == s,
        state_exactly_named(state_name(s)) == Some(s),
{
    reveal_strlit("new");
    reveal_strlit("learning");
    reveal_strlit("review");
    reveal_strlit("relearning");
    assert("new"@.len() == 3 && "learning"@.len() == 8 && "review"@.len() == 6
        && "relearning"@.len() == 10);
}

/// Minutes between the short-term repetitions of a card in learning (a new
/// card) or in relearning (a forgotten one).
pub open spec fn steps(relearning: bool) -> Seq<u32> {
    if relearning {
        seq![10u32]
    } else {
        seq![1u32, 10u32]
    }
}

/// The learning steps, in minutes.
pub fn step_minutes(relearning: bool) -> (v: Vec<u32>)
    ensures
        v@ == steps(relearning),
{
    if relearning {
        vec![10u32]
    } else {
        vec![1u32, 10u32]
    }
}

/// Interval, in days, of a new card that finishes its learning steps.
pub const GRADUATING_INTERVAL_DAYS: u32 = 1;

/// Interval, in days, of a new card that skips its learning steps with `Easy`.
pub const EASY_INTERVAL_DAYS: u32 = 4;

/// The integer part of a schedule.
#[derive(Debug, Clone, Copy, PartialEq, Eq, Structural)]
pub struct Progress {
    pub state: State,
    /// Index into the learning / relearning steps.
    pub step: i64,
    pub reps: i64,
    pub lapses: i64,
}

/// How the ease changes.
#[derive(Debug, Clone, Copy, PartialEq, Eq, Structural)]
pub enum EaseChange {
    /// The ease is left as it is, not even clamped.
    Keep,
    /// The ease moves by this many hundredths and is then clamped to its bounds.
    Shift(i64),
}

/// How the next interval (in days) is computed from the previous interval `i`
/// and the ease; `clamp` keeps an interval within one day and five years.
#[derive(Debug, Clone, Copy, PartialEq, Eq, Structural)]
pub enum IntervalChange {
    /// The interval is left as it is.
    Keep,
    /// A new card graduates with this many days.
    Graduate(u32),
    /// A relearned card graduates with `clamp(i)`.
    Relearned,
    /// A relearned card graduates with `Easy`: `clamp(clamp(i) * easy bonus)`.
    RelearnedEasy,
    /// A lapse: `clamp(max(i, 1) * lapse factor)`.
    Lapse,
    /// `Hard` in review: `clamp(max(i, 1) * hard factor)`.
    Hard,
    /// `Good` in review: `clamp(max(i, 1) * ease)`.
    Good,
    /// `Easy` in review: `clamp(max(i, 1) * new ease * easy bonus)`.
    Easy,
}

/// When the card is due next.
#[derive(Debug, Clone, Copy, PartialEq, Eq, Structural)]
pub enum DueChange {
    /// After this many minutes (a learning step).
    Minutes(u32),
    /// After the new interval.
    Interval,
}

/// Everything a review decides.
#[derive(Debug, Clone, Copy, PartialEq, Eq, Structural)]
pub struct Transition {
    pub progress: Progress,
    pub ease: EaseChange,
    pub interval: IntervalChange,
    pub due: DueChange,
}

/// The learning step that `Hard` repeats: the current one, kept within the steps.
pub open spec fn hard_step(step: int, n: int) -> int {
    if step < 0 {
        0
    } else if step > n - 1 {
        n - 1
    } else {
        step
    }
}

/// Whether `Good` at `step` finishes the learning steps. A negative next step
/// counts as past the end, as its conversion to an index makes it.
pub open spec fn finishes_steps(step: int, n: int) -> bool {
    step + 1 < 0 || step + 1 >= n
}

/// The card after it graduates to review.
pub open spec fn graduated(p: Progress, interval: IntervalChange) -> Transition {
    Transition {
        progress: Progress { state: State::Review, step: 0, reps: (p.reps + 1) as i64, lapses: p.lapses },
        ease: EaseChange::Keep,
        interval,
        due: DueChange::Interval,
    }
}

/// A review of a card that is new, in learning or in relearning.
pub open spec fn learning_transition(p: Progress, g: Grade) -> Transition {
    let relearning = p.state == State::Relearning;
    let st = steps(relearning);
    let stay = if relearning { State::Relearning } else { State::Learning };
    let reps = (p.reps + 1) as i64;
    match g {
        Grade::Again => Transition {
            progress: Progress { state: stay, step: 0, reps, lapses: p.lapses },
            ease: EaseChange::Keep,
            interval: IntervalChange::Keep,
            due: DueChange::Minutes(st[0]),
        },
        Grade::Hard => Transition {
            progress: Progress { state: stay, step: p.step, reps, lapses: p.lapses },
            ease: EaseChange::Keep,
            interval: IntervalChange::Keep,
            due: DueChange::Minutes(st[hard_step(p.step as int, st.len() as int)]),
        },
        Grade::Good => if finishes_steps(p.step as int, st.len() as int) {
            graduated(
                p,
                if relearning {
                    IntervalChange::Relearned
                } else {
                    IntervalChange::Graduate(GRADUATING_INTERVAL_DAYS)
                },
            )
        } else {
            Transition {
                progress: Progress { state: stay, step: (p.step + 1) as i64, reps, lapses: p.lapses },
                ease: EaseChange::Keep,
                interval: IntervalChange::Keep,
                due: DueChange::Minutes(st[p.step + 1]),
            }
        },
        Grade::Easy => graduated(
            p,
            if relearning {
                IntervalChange::RelearnedEasy
            } else {
                IntervalChange::Graduate(EASY_INTERVAL_DAYS)
            },
        ),
    }
}

/// A review of a card in the long-term review queue.
pub open spec fn review_transition(p: Progress, g: Grade) -> Transition {
    let reps = (p.reps + 1) as i64;
    match g {
        Grade::Again => Transition {
            progress: Progress { state: State::Relearning, step: 0, reps, lapses: (p.lapses + 1) as i64 },
            ease: EaseChange::Shift(-20i64),
            interval: IntervalChange::Lapse,
            due: DueChange::Minutes(steps(true)[0]),
        },
        Grade::Hard => Transition {
            progress: Progress { reps, ..p },
            ease: EaseChange::Shift(-15i64),
            interval: IntervalChange::Hard,
            due: DueChange::Interval,
        },
        Grade::Good => Transition {
            progress: Progress { reps, ..p },
            ease: EaseChange::Keep,
            interval: IntervalChange::Good,
            due: DueChange::Interval,
        },
        Grade::Easy => Transition {
            progress: Progress { reps, ..p },
            ease: EaseChange::Shift(15i64),
            interval: IntervalChange::Easy,
            due: DueChange::Interval,
        },
    }
}

/// What grading a card with schedule `p` as `g` decides.
pub open spec fn next(p: Progress, g: Grade) -> Transition {
    if p.state == State::Review {
        review_transition(p, g)
    } else {
        learning_transition(p, g)
    }
}

/// The counters a review may increment stay within `i64`.
pub open spec fn reviewable(p: Progress, g: Grade) -> bool {
    &&& p.reps < i64::MAX
    &&& (p.state == State::Review && g == Grade::Again) ==> p.lapses < i64::MAX
    &&& (p.state != State::Review && g == Grade::Good) ==> p.step < i64::MAX
}

/// Applies a grade to the integer part of a schedule.
pub fn review(prev: Progress, grade: Grade) -> (t: Transition)
    requires
        reviewable(prev, grade),
    ensures
        t == next(prev, grade),
{
    match prev.state {
        State::New | State::Learning => grade_learning(prev, grade, false),
        State::Relearning => grade_learning(prev, grade, true),
        State::Review => grade_review(prev, grade),
    }
}

fn graduate(prev: Progress, interval: IntervalChange) -> (t: Transition)
    requires
        prev.reps < i64::MAX,
    ensures
        t == graduated(prev, interval),
{
    Transition {
        progress: Progress {
            state: State::Review,
            step: 0,
            reps: prev.reps + 1,
            lapses: prev.lapses,
        },
        ease: EaseChange::Keep,
        interval,
        due: DueChange::Interval,
    }
}

/// Learning and relearning share their step logic; they differ only in the
/// steps themselves and in the interval a card graduates with.
fn grade_learning(prev: Progress, grade: Grade, relearning: bool) -> (t: Transition)
    requires
        reviewable(prev, grade),
        prev.state != State::Review,
        relearning == (prev.state == State::Relearning),
    ensures
        t == learning_transition(prev, grade),
{
    let steps = step_minutes(relearning);
    let stay = if relearning {
        State::Relearning
    } else {
        State::Learning
    };
    let reps = prev.reps + 1;
    match grade {
        Grade::Again => Transition {
            progress: Progress { state: stay, step: 0, reps, lapses: prev.lapses },
            ease: EaseChange::Keep,
            interval: IntervalChange::Keep,
            due: DueChange::Minutes(steps[0]),
        },
        Grade::Hard => {
            let last = steps.len() - 1;
            let at: usize = if prev.step < 0 {
                0
            } else if prev.step as u64 > last as u64 {
                last
            } else {
                prev.step as usize
            };
            Transition {
                progress: Progress { state: stay, step: prev.step, reps, lapses: prev.lapses },
                ease: EaseChange::Keep,
                interval: IntervalChange::Keep,
                due: DueChange::Minutes(steps[at]),
            }
        },
        Grade::Good => {
            let step = prev.step + 1;
            if step < 0 || step as u64 >= steps.len() as u64 {
                graduate(
                    prev,
                    if relearning {
                        IntervalChange::Relearned
                    } else {
                        IntervalChange::Graduate(GRADUATING_INTERVAL_DAYS)
                    },
                )
            } else {
                Transition {
                    progress: Progress { state: stay, step, reps, lapses: prev.lapses },
                    ease: EaseChange::Keep,
                    interval: IntervalChange::Keep,
                    due: DueChange::Minutes(steps[step as usize]),
                }
            }
        },
        Grade::Easy => graduate(
            prev,
            if relearning {
                IntervalChange::RelearnedEasy
            } else {
                IntervalChange::Graduate(EASY_INTERVAL_DAYS)
            },
        ),
    }
}

fn grade_review(prev: Progress, grade: Grade) -> (t: Transition)
    requires
        reviewable(prev, grade),
        prev.state == State::Review,
    ensures
        t == review_transition(prev, grade),
{
    let reps = prev.reps + 1;
    match grade {
        Grade::Again => {
            let relearning_steps = step_minutes(true);
            Transition {
                progress: Progress {
                    state: State::Relearning,
                    step: 0,
                    reps,
                    lapses: prev.lapses + 1,
                },
                ease: EaseChange::Shift(-20),
                interval: IntervalChange::Lapse,
                due: DueChange::Minutes(relearning_steps[0]),
            }
        },
        Grade::Hard => Transition {
            progress: Progress { reps, ..prev },
            ease: EaseChange::Shift(-15),
            interval: IntervalChange::Hard,
            due: DueChange::Interval,
        },
        Grade::Good => Transition {
            progress: Progress { reps, ..prev },
            ease: EaseChange::Keep,
            interval: IntervalChange::Good,
            due: DueChange::Interval,
        },
        Grade::Easy => Transition {
            progress: Progress { reps, ..prev },
            ease: EaseChange::Shift(15),
            interval: IntervalChange::Easy,
            due: DueChange::Interval,
        },
    }
}

/// Every review counts as one more repetition.
pub proof fn law_review_counts_one_repetition(p: Progress, g: Grade)
    requires
        reviewable(p, g),
    ensures
        next(p, g).progress.reps == p.reps + 1,
{
}

/// No grade sends a card back to `New`.
pub proof fn law_never_new_again(p: Progress, g: Grade)
    ensures
        next(p, g).progress.state != State::New,
{
}

/// `Easy` always moves a card to the review queue, due after its interval.
pub proof fn law_easy_graduates(p: Progress)
    ensures
        next(p, Grade::Easy).progress.state == State::Review,
        next(p, Grade::Easy).due == DueChange::Interval,
{
}

/// `Again` never graduates a card: it restarts the (re)learning steps.
pub proof fn law_again_restarts_steps(p: Progress)
    ensures
        next(p, Grade::Again).progress.state == if p.state == State::New || p.state
            == State::Learning {
            State::Learning
        } else {
            State::Relearning
        },
        next(p, Grade::Again).progress.step == 0,
{
}

/// A lapse is counted exactly when a card in review is forgotten.
pub proof fn law_lapse_only_when_review_forgotten(p: Progress, g: Grade)
    requires
        reviewable(p, g),
    ensures
        next(p, g).progress.lapses == p.lapses + if p.state == State::Review && g
            == Grade::Again {
            1int
        } else {
            0int
        },
{
}

/// The ease only moves for cards in the review queue.
pub proof fn law_ease_moves_only_in_review(p: Progress, g: Grade)
    requires
        p.state != State::Review,
    ensures
        next(p, g).ease == EaseChange::Keep,
{
}

/// A card in learning or relearning comes back after a learning step, a card
/// in review after its interval; the learning steps last 1 or 10 minutes.
pub proof fn law_due_follows_state(p: Progress, g: Grade)
    ensures
        next(p, g).due is Minutes <==> (next(p, g).progress.state == State::Learning
            || next(p, g).progress.state == State::Relearning),
        next(p, g).due matches DueChange::Minutes(m) ==> (m == 1 || m == 10),
{
}

/// Only a card in review lapses. A card that is new, in learning or in
/// relearning keeps its interval while it stays in its steps (`Again` above
/// all), and changes it only by graduating to review.
pub proof fn law_interval_moves_only_by_graduating_or_in_review(p: Progress, g: Grade)
    ensures
        next(p, g).interval is Lapse <==> (p.state == State::Review && g == Grade::Again),
        p.state != State::Review ==> (next(p, g).interval is Keep || next(p, g).interval is Graduate
            || next(p, g).interval is Relearned || next(p, g).interval is RelearnedEasy),
        p.state != State::Review && g == Grade::Again ==> next(p, g).interval
            == IntervalChange::Keep,
        p.state != State::Review && next(p, g).progress.state != State::Review ==> next(
            p,
            g,
        ).interval == IntervalChange::Keep,
        p.state != State::Review && next(p, g).progress.state == State::Review ==> next(
            p,
            g,
        ).interval != IntervalChange::Keep,
{
}

/// Whether `step` indexes a learning step of a card in state `s`.
pub open spec fn step_in_range(s: State, step: int) -> bool {
    s == State::Review || (0 <= step < steps(s == State::Relearning).len())
}

/// A review keeps the learning step within the steps of the card's state.
pub proof fn law_step_stays_in_range(p: Progress, g: Grade)
    requires
        p.state != State::New ==> step_in_range(p.state, p.step as int),
        p.state == State::New ==> p.step == 0,
    ensures
        step_in_range(next(p, g).progress.state, next(p, g).progress.step as int),
{
}

} // verus!

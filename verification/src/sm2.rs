//! SM-2 spaced repetition: the integer side of a progress record and the
//! scheduling step applied after each answer.
use std::collections::HashMap;
use vstd::prelude::*;

verus! {

broadcast use vstd::std_specs::hash::group_hash_axioms;

/// Answer quality, 0 to 5: 5 is instant recall, 3 correct with effort, 0 a
/// complete failure.
pub type Quality = u8;

/// Seconds in a day.
pub const SECONDS_PER_DAY: i64 = 86_400;

/// Map answer correctness and hint usage to an SM-2 quality.
pub open spec fn quality_of(correct: bool, used_hint: bool) -> Quality {
    if correct {
        if used_hint {
            3
        } else {
            5
        }
    } else {
        1
    }
}

pub fn quality_from_answer(correct: bool, used_hint: bool) -> (q: Quality)
    ensures
        q == quality_of(correct, used_hint),
{
    match (correct, used_hint) {
        (true, false) => 5,
        (true, true) => 3,
        (false, _) => 1,
    }
}

/// The counters and dates of a progress record; the ease factor, a float,
/// is kept beside it by the caller.
#[derive(Debug, Clone, Copy, PartialEq, Eq, Structural)]
pub struct ReviewState {
    pub form_id: i64,
    /// Total correct answers.
    pub correct: u32,
    /// Total incorrect answers.
    pub incorrect: u32,
    /// Current correct streak.
    pub streak: u32,
    /// Current interval in days.
    pub interval_days: u32,
    /// Unix timestamp (seconds) for next scheduled review.
    pub next_review: i64,
    /// Unix timestamp of last time this form was shown.
    pub last_seen: i64,
}

/// A form is learned once it has been answered correctly five times in a
/// row.
pub open spec fn learned(r: ReviewState) -> bool {
    r.streak >= 5
}

/// A form is due when it was never scheduled or its review time has come.
pub open spec fn due_at(r: ReviewState, now: i64) -> bool {
    r.next_review == 0 || r.next_review <= now
}

/// The answer counts as correct.
pub open spec fn passing(quality: Quality) -> bool {
    quality >= 3
}

/// The interval after an answer: 1 day after a miss or a first success, 6
/// after a second, and otherwise the previous interval scaled by the ease
/// factor (`scaled`, computed by the caller from the float ease factor).
pub open spec fn next_interval(r: ReviewState, quality: Quality, scaled: u32) -> u32 {
    if passing(quality) {
        if r.streak + 1 == 1 {
            1
        } else if r.streak + 1 == 2 {
            6
        } else {
            scaled
        }
    } else {
        1
    }
}

/// The record after one answer of quality `quality` at time `now`.
pub open spec fn after_answer(r: ReviewState, quality: Quality, scaled: u32, now: i64) -> ReviewState {
    let interval = next_interval(r, quality, scaled);
    ReviewState {
        form_id: r.form_id,
        correct: if passing(quality) {
            (r.correct + 1) as u32
        } else {
            r.correct
        },
        incorrect: if passing(quality) {
            r.incorrect
        } else {
            (r.incorrect + 1) as u32
        },
        streak: if passing(quality) {
            (r.streak + 1) as u32
        } else {
            0
        },
        interval_days: interval,
        last_seen: now,
        next_review: (now + interval * SECONDS_PER_DAY) as i64,
    }
}

/// The counters an answer increments stay within range, and so does the
/// next review time.
pub open spec fn answer_fits(r: ReviewState, quality: Quality, scaled: u32, now: i64) -> bool {
    &&& passing(quality) ==> r.correct < u32::MAX && r.streak < u32::MAX
    &&& !passing(quality) ==> r.incorrect < u32::MAX
    &&& now + next_interval(r, quality, scaled) * SECONDS_PER_DAY <= i64::MAX
}

impl ReviewState {
    /// A record for a form never answered: interval of one day, nothing
    /// scheduled yet.
    pub fn new(form_id: i64) -> (r: ReviewState)
        ensures
            r == (ReviewState {
                form_id,
                correct: 0,
                incorrect: 0,
                streak: 0,
                interval_days: 1,
                next_review: 0,
                last_seen: 0,
            }),
    {
        ReviewState {
            form_id,
            correct: 0,
            incorrect: 0,
            streak: 0,
            interval_days: 1,
            next_review: 0,
            last_seen: 0,
        }
    }

    pub fn is_learned(&self) -> (r: bool)
        ensures
            r == learned(*self),
    {
        self.streak >= 5
    }

    /// Whether the form is due for review at time `now`.
    pub fn is_due_at(&self, now: i64) -> (r: bool)
        ensures
            r == due_at(*self, now),
    {
        self.next_review == 0 || self.next_review <= now
    }
}

/// Apply one SM-2 step: count the answer, extend or reset the streak, pick
/// the next interval and schedule the next review from `now`. `scaled` is
/// the previous interval times the ease factor, rounded, which the caller
/// computes before updating its ease factor.
pub fn sm2_update(rec: &mut ReviewState, quality: Quality, scaled: u32, now: i64)
    requires
        quality <= 5,
        answer_fits(*old(rec), quality, scaled, now),
    ensures
        *final(rec) == after_answer(*old(rec), quality, scaled, now),
{
    if quality >= 3 {
        rec.correct = rec.correct + 1;
        rec.streak = rec.streak + 1;
        rec.interval_days = if rec.streak == 1 {
            1
        } else if rec.streak == 2 {
            6
        } else {
            scaled
        };
    } else {
        rec.incorrect = rec.incorrect + 1;
        rec.streak = 0;
        rec.interval_days = 1;
    }
    rec.last_seen = now;
    assert(rec.interval_days * SECONDS_PER_DAY <= u32::MAX * 86_400);
    rec.next_review = rec.last_seen + rec.interval_days as i64 * SECONDS_PER_DAY;
}

/// Whether an answer can be recorded without a counter or the review time
/// overflowing.
pub fn answer_fits_check(r: &ReviewState, quality: Quality, scaled: u32, now: i64) -> (b: bool)
    ensures
        b == answer_fits(*r, quality, scaled, now),
{
    let pass = quality >= 3;
    if pass && (r.correct == u32::MAX || r.streak == u32::MAX) {
        return false;
    }
    if !pass && r.incorrect == u32::MAX {
        return false;
    }
    let interval: u32 = if pass {
        if r.streak == 0 {
            1
        } else if r.streak == 1 {
            6
        } else {
            scaled
        }
    } else {
        1
    };
    assert(interval == next_interval(*r, quality, scaled));
    let secs: i64 = interval as i64 * SECONDS_PER_DAY;
    now <= i64::MAX - secs
}

/// The record of a form, or a new one when it has none.
pub open spec fn record_or_new(progress: Map<i64, ReviewState>, form_id: i64) -> ReviewState {
    if progress.contains_key(form_id) {
        progress[form_id]
    } else {
        ReviewState {
            form_id,
            correct: 0,
            incorrect: 0,
            streak: 0,
            interval_days: 1,
            next_review: 0,
            last_seen: 0,
        }
    }
}

/// Record an answer on a form: its record, or a new one, is updated and
/// stored; no other record changes.
pub fn record_answer(
    progress: &mut HashMap<i64, ReviewState>,
    form_id: i64,
    quality: Quality,
    scaled: u32,
    now: i64,
)
    requires
        quality <= 5,
        answer_fits(record_or_new(old(progress)@, form_id), quality, scaled, now),
    ensures
        final(progress)@ == old(progress)@.insert(
            form_id,
            after_answer(record_or_new(old(progress)@, form_id), quality, scaled, now),
        ),
{
    let mut rec = match progress.get(&form_id) {
        Some(r) => *r,
        None => ReviewState::new(form_id),
    };
    sm2_update(&mut rec, quality, scaled, now);
    progress.insert(form_id, rec);
}

/// A miss resets the streak and the interval: the form is no longer
/// learned and comes back the next day.
pub proof fn lemma_miss_resets(r: ReviewState, quality: Quality, scaled: u32, now: i64)
    requires
        !passing(quality),
        answer_fits(r, quality, scaled, now),
    ensures
        after_answer(r, quality, scaled, now).streak == 0,
        after_answer(r, quality, scaled, now).interval_days == 1,
        !learned(after_answer(r, quality, scaled, now)),
        after_answer(r, quality, scaled, now).next_review == now + SECONDS_PER_DAY,
{
}

/// A form is learned after an answer exactly when the answer passes and the
/// streak before it was at least four.
pub proof fn lemma_learned_after_answer(r: ReviewState, quality: Quality, scaled: u32, now: i64)
    requires
        answer_fits(r, quality, scaled, now),
    ensures
        learned(after_answer(r, quality, scaled, now)) <==> (passing(quality) && r.streak >= 4),
{
}

/// Every answer counts once, as correct or as incorrect.
pub proof fn lemma_answer_counted(r: ReviewState, quality: Quality, scaled: u32, now: i64)
    requires
        answer_fits(r, quality, scaled, now),
    ensures
        after_answer(r, quality, scaled, now).correct + after_answer(
            r,
            quality,
            scaled,
            now,
        ).incorrect == r.correct + r.incorrect + 1,
{
}

/// Right after an answer with a positive interval the form is not due, and
/// it becomes due once the interval has passed.
pub proof fn lemma_due_after_interval(r: ReviewState, quality: Quality, scaled: u32, now: i64, later: i64)
    requires
        answer_fits(r, quality, scaled, now),
        now >= 0,
        next_interval(r, quality, scaled) > 0,
    ensures
        !due_at(after_answer(r, quality, scaled, now), now),
        later >= now + next_interval(r, quality, scaled) * SECONDS_PER_DAY ==> due_at(
            after_answer(r, quality, scaled, now),
            later,
        ),
{
}

// ── Totals ─────────────────────────────────────────────────────────────────

/// How many records are learned.
pub open spec fn count_learned(s: Seq<ReviewState>) -> nat
    decreases s.len(),
{
    if s.len() == 0 {
        0
    } else {
        count_learned(s.drop_last()) + if learned(s.last()) {
            1nat
        } else {
            0nat
        }
    }
}

/// The right answers over the records.
pub open spec fn sum_correct(s: Seq<ReviewState>) -> nat
    decreases s.len(),
{
    if s.len() == 0 {
        0
    } else {
        sum_correct(s.drop_last()) + s.last().correct as nat
    }
}

/// The wrong answers over the records.
pub open spec fn sum_incorrect(s: Seq<ReviewState>) -> nat
    decreases s.len(),
{
    if s.len() == 0 {
        0
    } else {
        sum_incorrect(s.drop_last()) + s.last().incorrect as nat
    }
}

/// The counts shown on the progress page.
#[derive(Debug, Clone, Copy)]
pub struct ProgressCounts {
    /// Forms in the catalogue.
    pub total: usize,
    /// Forms answered at least once.
    pub seen: usize,
    /// Forms learned.
    pub learned: usize,
    /// Right answers over all forms.
    pub correct: u64,
    /// Wrong answers over all forms.
    pub incorrect: u64,
    /// Sessions held.
    pub sessions: usize,
}

proof fn lemma_sums_bounded(s: Seq<ReviewState>)
    ensures
        count_learned(s) <= s.len(),
        sum_correct(s) <= s.len() * 0xffff_ffff,
        sum_incorrect(s) <= s.len() * 0xffff_ffff,
    decreases s.len(),
{
    if s.len() > 0 {
        lemma_sums_bounded(s.drop_last());
    }
}

/// The totals over the progress records.
pub fn progress_counts(total: usize, records: &[ReviewState], sessions: usize) -> (r:
    ProgressCounts)
    requires
        records@.len() <= 0xffff_ffff,
    ensures
        r.total == total,
        r.seen == records@.len(),
        r.learned == count_learned(records@),
        r.correct == sum_correct(records@),
        r.incorrect == sum_incorrect(records@),
        r.sessions == sessions,
{
    let mut learned_n: usize = 0;
    let mut correct: u64 = 0;
    let mut incorrect: u64 = 0;
    let mut i: usize = 0;
    assert(records@.take(0) =~= Seq::<ReviewState>::empty());
    while i < records.len()
        invariant
            i <= records@.len(),
            records@.len() <= 0xffff_ffff,
            learned_n == count_learned(records@.take(i as int)),
            correct == sum_correct(records@.take(i as int)),
            incorrect == sum_incorrect(records@.take(i as int)),
        decreases records@.len() - i,
    {
        let ghost t = records@.take(i + 1);
        assert(t.drop_last() =~= records@.take(i as int));
        assert(t.last() == records@[i as int]);
        proof {
            lemma_sums_bounded(t);
            assert(t.len() * 0xffff_ffff <= 0xffff_ffff * 0xffff_ffff) by (nonlinear_arith)
                requires
                    t.len() <= 0xffff_ffff,
            ;
        }
        let rec = records[i];
        if rec.streak >= 5 {
            learned_n = learned_n + 1;
        }
        correct = correct + rec.correct as u64;
        incorrect = incorrect + rec.incorrect as u64;
        i = i + 1;
    }
    assert(records@.take(records@.len() as int) =~= records@);
    ProgressCounts { total, seen: records.len(), learned: learned_n, correct, incorrect, sessions }
}

/// Qualities 3, 4 and 5 are correct answers: one more correct, the streak
/// one longer, the misses unchanged, and the interval 1 day after the first
/// success in a row and 6 after the second. Qualities 0, 1 and 2 are
/// misses: one more incorrect, the streak back to 0, the correct count
/// unchanged, and the next review one day away. Either way the answer is
/// recorded at `now`.
pub proof fn lemma_answer_counts(r: ReviewState, quality: Quality, scaled: u32, now: i64)
    requires
        quality <= 5,
        r.correct < u32::MAX,
        r.incorrect < u32::MAX,
        r.streak < u32::MAX,
    ensures
        3 <= quality ==> {
            let a = after_answer(r, quality, scaled, now);
            &&& a.correct == r.correct + 1
            &&& a.streak == r.streak + 1
            &&& a.incorrect == r.incorrect
            &&& r.streak == 0 ==> a.interval_days == 1
            &&& r.streak == 1 ==> a.interval_days == 6
            &&& r.streak >= 2 ==> a.interval_days == scaled
        },
        quality < 3 ==> {
            let a = after_answer(r, quality, scaled, now);
            &&& a.incorrect == r.incorrect + 1
            &&& a.streak == 0
            &&& a.correct == r.correct
            &&& a.interval_days == 1
        },
        after_answer(r, quality, scaled, now).last_seen == now,
        after_answer(r, quality, scaled, now).form_id == r.form_id,
{
}

/// A record is due when it was never scheduled or its review time has
/// come, and counts as learned from a streak of five on; after an answer
/// that fits, the next review is the answer's time plus the new interval
/// in days.
pub proof fn lemma_review_times(r: ReviewState, quality: Quality, scaled: u32, now: i64)
    ensures
        due_at(r, now) <==> (r.next_review == 0 || r.next_review <= now),
        learned(r) <==> r.streak >= 5,
        quality <= 5 && answer_fits(r, quality, scaled, now) ==> after_answer(r, quality, scaled, now).next_review
            == now + after_answer(r, quality, scaled, now).interval_days * 86_400,
{
}

/// On the scale 0..5 (5 instant recall, 3 correct with effort, below 3 a
/// miss), a right answer without a hint is instant recall, a right answer
/// with a hint is correct with effort, and a wrong answer is a miss.
pub proof fn lemma_answer_quality(correct: bool, used_hint: bool)
    ensures
        quality_of(correct, used_hint) <= 5,
        correct && !used_hint ==> quality_of(correct, used_hint) == 5,
        correct && used_hint ==> quality_of(correct, used_hint) == 3,
        !correct ==> quality_of(correct, used_hint) < 3,
{
}

} // verus!

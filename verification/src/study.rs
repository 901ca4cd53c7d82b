//! The decisions of the drills: what a pick, a submission or a timer does
//! to a drill, which options and cells are shown, and how far a session
//! has come. Waiting and drawing stay with the caller.
use vstd::prelude::*;

use crate::diacritics::{compare_greek, diff_chars, greek_matches, strip_leading_article, without_leading_article};
use crate::form::Form;
use crate::paradigm::{ParadigmCell, ParadigmTable};
use crate::quiz::{sort_by_key, sort_forms};
use crate::sm2::{quality_from_answer, quality_of, Quality};
use crate::filter::ids_contain;
use crate::text::{opt_view, str_eq, trim, trim_seq};

verus! {

// ── Flashcards ─────────────────────────────────────────────────────────────

/// What the last pick of a flashcard was.
#[derive(Clone, Copy, PartialEq, Eq, Structural, Debug)]
pub enum Feedback {
    Correct,
    /// The id of the wrong form picked.
    Wrong(i64),
}

/// How an option button is drawn.
#[derive(Clone, Copy, PartialEq, Eq, Structural, Debug)]
pub enum ChoiceLook {
    Plain,
    Correct,
    Wrong,
}

pub open spec fn choice_look_of(feedback: Option<Feedback>, choice_id: i64, correct_id: i64) -> ChoiceLook {
    match feedback {
        Some(Feedback::Correct) => if choice_id == correct_id {
            ChoiceLook::Correct
        } else {
            ChoiceLook::Plain
        },
        Some(Feedback::Wrong(id)) => if id == choice_id {
            ChoiceLook::Wrong
        } else if choice_id == correct_id {
            ChoiceLook::Correct
        } else {
            ChoiceLook::Plain
        },
        None => ChoiceLook::Plain,
    }
}

/// How an option is drawn after a pick: the right one green, a wrongly
/// picked one red, the others plain.
pub fn choice_look(feedback: Option<Feedback>, choice_id: i64, correct_id: i64) -> (r: ChoiceLook)
    ensures
        r == choice_look_of(feedback, choice_id, correct_id),
{
    match feedback {
        Some(Feedback::Correct) => if choice_id == correct_id {
            ChoiceLook::Correct
        } else {
            ChoiceLook::Plain
        },
        Some(Feedback::Wrong(id)) => if id == choice_id {
            ChoiceLook::Wrong
        } else if choice_id == correct_id {
            ChoiceLook::Correct
        } else {
            ChoiceLook::Plain
        },
        None => ChoiceLook::Plain,
    }
}

/// A self-rating after the answer was shown.
#[derive(Clone, Copy, PartialEq, Eq, Structural, Debug)]
pub enum SelfRating {
    DidNotKnow,
    Hard,
    Knew,
}

pub open spec fn rating_quality(r: SelfRating) -> Quality {
    match r {
        SelfRating::DidNotKnow => 1,
        SelfRating::Hard => 3,
        SelfRating::Knew => 5,
    }
}

/// Pause after a right pick, in milliseconds.
pub const FLASHCARD_RIGHT_PAUSE_MS: u32 = 1000;

/// Pause after a wrong pick, in milliseconds.
pub const FLASHCARD_WRONG_PAUSE_MS: u32 = 2000;

/// The state of a flashcard drill.
#[derive(Clone, Copy, Debug)]
pub struct FlashcardState {
    /// Position in the drill order.
    pub index: usize,
    /// The answer is shown for self-rating.
    pub revealed: bool,
    /// The last pick, while its pause lasts.
    pub feedback: Option<Feedback>,
}

/// The card after `index`, starting over after the last.
pub open spec fn next_card(index: usize, total: usize) -> usize {
    ((index + 1) % (total as int)) as usize
}

impl FlashcardState {
    /// The first card, nothing picked or shown.
    pub fn new() -> (r: FlashcardState)
        ensures
            r.index == 0,
            !r.revealed,
            r.feedback is None,
    {
        FlashcardState { index: 0, revealed: false, feedback: None }
    }

    /// A form is picked. While a pick's pause lasts nothing happens;
    /// otherwise the pick is judged, and the quality to record and the pause
    /// before the next card are returned.
    pub fn pick(&mut self, chosen_id: i64, correct_id: i64) -> (r: Option<(Quality, u32)>)
        ensures
            old(self).feedback is Some ==> r is None && *final(self) == *old(self),
            old(self).feedback is None ==> {
                let ok = chosen_id == correct_id;
                &&& r == Some((quality_of(ok, false), if ok {
                    FLASHCARD_RIGHT_PAUSE_MS
                } else {
                    FLASHCARD_WRONG_PAUSE_MS
                }))
                &&& final(self).feedback == Some(if ok {
                    Feedback::Correct
                } else {
                    Feedback::Wrong(chosen_id)
                })
                &&& final(self).index == old(self).index
                &&& final(self).revealed == old(self).revealed
            },
    {
        if self.feedback.is_some() {
            return None;
        }
        let ok = chosen_id == correct_id;
        let q = quality_from_answer(ok, false);
        if ok {
            self.feedback = Some(Feedback::Correct);
            Some((q, FLASHCARD_RIGHT_PAUSE_MS))
        } else {
            self.feedback = Some(Feedback::Wrong(chosen_id));
            Some((q, FLASHCARD_WRONG_PAUSE_MS))
        }
    }

    /// The pause after a pick is over: the next card, with nothing shown.
    pub fn after_pause(&mut self, total: usize)
        requires
            total > 0,
            old(self).index < total,
        ensures
            final(self).index == next_card(old(self).index, total),
            final(self).feedback is None,
            final(self).revealed == (old(self).revealed && old(self).feedback == Some(
                Feedback::Correct,
            )),
    {
        let wrong = match self.feedback {
            Some(Feedback::Wrong(_)) => true,
            _ => false,
        };
        let was_correct = match self.feedback {
            Some(Feedback::Correct) => true,
            _ => false,
        };
        self.index = (self.index + 1) % total;
        self.feedback = None;
        if wrong || !was_correct {
            self.revealed = false;
        }
    }

    /// Show the answer; not while a pick's pause lasts.
    pub fn show_answer(&mut self)
        ensures
            final(self).revealed == (old(self).revealed || old(self).feedback is None),
            final(self).index == old(self).index,
            final(self).feedback == old(self).feedback,
    {
        if self.feedback.is_none() {
            self.revealed = true;
        }
    }

    /// The learner rates the shown answer: the quality to record, and the
    /// next card.
    pub fn rate(&mut self, rating: SelfRating, total: usize) -> (q: Quality)
        requires
            total > 0,
            old(self).index < total,
        ensures
            q == rating_quality(rating),
            final(self).index == next_card(old(self).index, total),
            !final(self).revealed,
            final(self).feedback is None,
    {
        self.index = (self.index + 1) % total;
        self.revealed = false;
        self.feedback = None;
        match rating {
            SelfRating::DidNotKnow => 1,
            SelfRating::Hard => 3,
            SelfRating::Knew => 5,
        }
    }
}

// ── Fill-in drill ──────────────────────────────────────────────────────────

/// Questions in a fill-in session.
pub const FILLIN_SESSION_SIZE: usize = 10;

/// Pause after a right answer, in milliseconds.
pub const FILLIN_RIGHT_PAUSE_MS: u32 = 800;

/// Pause after a wrong answer, in milliseconds.
pub const FILLIN_WRONG_PAUSE_MS: u32 = 4000;

/// The questions in a session over `total` forms.
pub fn session_length(total: usize) -> (r: usize)
    ensures
        r == if total < FILLIN_SESSION_SIZE {
            total
        } else {
            FILLIN_SESSION_SIZE
        },
{
    if total < FILLIN_SESSION_SIZE {
        total
    } else {
        FILLIN_SESSION_SIZE
    }
}

/// The result picture for a score: one per score up to ten.
pub fn result_picture(correct: u32) -> (r: usize)
    ensures
        r == if correct < 10 {
            correct as int
        } else {
            10
        },
{
    if correct < 10 {
        correct as usize
    } else {
        10
    }
}

/// The width of the progress bar, in percent.
pub fn progress_percent(index: usize, count: usize) -> (r: usize)
    requires
        count > 0,
        index <= count,
        count * 100 <= usize::MAX,
    ensures
        r == index * 100 / (count as int),
{
    index * 100 / count
}

/// The text an answer is compared with character by character: the
/// expected form without its article when the answer has none, the
/// expected form as it is otherwise.
pub open spec fn diff_expected(answer: Seq<char>, expected: Seq<char>) -> Seq<char> {
    let has_article = without_leading_article(trim_seq(answer)) != trim_seq(answer);
    if has_article {
        expected
    } else {
        without_leading_article(trim_seq(expected))
    }
}

/// The state of a fill-in drill.
#[derive(Debug)]
pub struct FillInState {
    /// The question reached.
    pub index: usize,
    /// Right answers in this session.
    pub correct: u32,
    /// What the learner typed.
    pub input: String,
    /// The answer was submitted and is being shown.
    pub submitted: bool,
    /// The submitted answer was right.
    pub is_correct: bool,
    /// Counts the moves to another question, so that a late timer of an
    /// earlier question does nothing.
    pub generation: u32,
}

impl FillInState {
    /// The first question, nothing typed.
    pub fn new() -> (r: FillInState)
        ensures
            r.index == 0,
            r.correct == 0,
            r.input@ == Seq::<char>::empty(),
            !r.submitted,
            !r.is_correct,
            r.generation == 0,
    {
        FillInState {
            index: 0,
            correct: 0,
            input: String::new(),
            submitted: false,
            is_correct: false,
            generation: 0,
        }
    }

    /// The session is over.
    pub fn finished(&self, count: usize) -> (r: bool)
        ensures
            r == (self.index >= count),
    {
        self.index >= count
    }

    /// The learner submits the typed answer. Nothing happens when nothing
    /// is typed or an answer is already shown; otherwise the answer is
    /// judged, and the quality to record, the pause and the generation for
    /// the timer are returned.
    pub fn submit(&mut self, expected: &str, ignore_diacritics: bool) -> (r: Option<
        (Quality, u32, u32),
    >)
        requires
            old(self).correct < u32::MAX,
        ensures
            (old(self).input@.len() == 0 || old(self).submitted) ==> r is None && *final(self)
                == *old(self),
            !(old(self).input@.len() == 0 || old(self).submitted) ==> {
                let ok = greek_matches(old(self).input@, expected@, ignore_diacritics);
                &&& r == Some((quality_of(ok, false), if ok {
                    FILLIN_RIGHT_PAUSE_MS
                } else {
                    FILLIN_WRONG_PAUSE_MS
                }, old(self).generation))
                &&& final(self).correct == if ok {
                    old(self).correct + 1
                } else {
                    old(self).correct as int
                }
                &&& final(self).is_correct == ok
                &&& final(self).submitted
                &&& final(self).index == old(self).index
                &&& final(self).input == old(self).input
                &&& final(self).generation == old(self).generation
            },
    {
        if self.input.as_str().unicode_len() == 0 || self.submitted {
            return None;
        }
        let ok = compare_greek(self.input.as_str(), expected, ignore_diacritics);
        let q = quality_from_answer(ok, false);
        if ok {
            self.correct = self.correct + 1;
        }
        self.is_correct = ok;
        self.submitted = true;
        let pause = if ok {
            FILLIN_RIGHT_PAUSE_MS
        } else {
            FILLIN_WRONG_PAUSE_MS
        };
        Some((q, pause, self.generation))
    }

    /// Move to the next question, clearing the answer.
    pub fn skip(&mut self)
        requires
            old(self).index < usize::MAX,
            old(self).generation < u32::MAX,
        ensures
            final(self).index == old(self).index + 1,
            final(self).generation == old(self).generation + 1,
            !final(self).submitted,
            final(self).input@ == Seq::<char>::empty(),
            final(self).correct == old(self).correct,
            final(self).is_correct == old(self).is_correct,
    {
        self.generation = self.generation + 1;
        self.index = self.index + 1;
        self.submitted = false;
        self.input = String::new();
    }

    /// The pause of a submission is over: move on, unless the learner
    /// already did (the timer's generation is stale).
    pub fn timer_done(&mut self, generation: u32)
        requires
            old(self).index < usize::MAX,
            old(self).generation < u32::MAX,
        ensures
            generation == old(self).generation ==> {
                &&& final(self).index == old(self).index + 1
                &&& final(self).generation == old(self).generation + 1
                &&& !final(self).submitted
                &&& final(self).input@ == Seq::<char>::empty()
                &&& final(self).correct == old(self).correct
                &&& final(self).is_correct == old(self).is_correct
            },
            generation != old(self).generation ==> *final(self) == *old(self),
    {
        if self.generation == generation {
            self.skip();
        }
    }

    /// The characters of the submitted answer, each marked right or wrong
    /// against the expected form; nothing before a submission.
    pub fn answer_diff(&self, expected: &str, ignore_diacritics: bool) -> (r: Vec<(char, bool)>)
        ensures
            !self.submitted ==> r@.len() == 0,
            self.submitted ==> r@.len() == trim_seq(self.input@).len() && forall|i: int|
                0 <= i < r@.len() ==> (#[trigger] r@[i]).0 == trim_seq(self.input@)[i] && r@[i].1 == (
                crate::diacritics::char_key(trim_seq(self.input@)[i], ignore_diacritics)
                    == crate::diacritics::key_at(
                    crate::diacritics::diff_target(
                        diff_expected(self.input@, expected@),
                        ignore_diacritics,
                    ),
                    i,
                )),
    {
        if !self.submitted {
            return Vec::new();
        }
        let target = fillin_diff_target(self.input.as_str(), expected);
        diff_chars(self.input.as_str(), target.as_str(), ignore_diacritics)
    }

    /// Start the session over.
    pub fn retry(&mut self)
        requires
            old(self).generation < u32::MAX,
        ensures
            final(self).index == 0,
            final(self).correct == 0,
            !final(self).submitted,
            final(self).input@ == Seq::<char>::empty(),
            final(self).generation == old(self).generation + 1,
            final(self).is_correct == old(self).is_correct,
    {
        self.index = 0;
        self.correct = 0;
        self.submitted = false;
        self.input = String::new();
        self.generation = self.generation + 1;
    }
}

/// The text a fill-in answer is compared with character by character.
pub fn fillin_diff_target(answer: &str, expected: &str) -> (r: String)
    ensures
        r@ == diff_expected(answer@, expected@),
{
    let t = trim(answer);
    let stripped = strip_leading_article(t);
    if str_eq(stripped, t) {
        String::from_str(strip_leading_article(trim(expected)))
    } else {
        String::from_str(expected)
    }
}

// ── Building drill ─────────────────────────────────────────────────────────

/// The form ids of the filled cells of a row, in order.
pub open spec fn row_form_ids(cells: Seq<ParadigmCell>) -> Seq<i64>
    decreases cells.len(),
{
    if cells.len() == 0 {
        Seq::empty()
    } else {
        let prev = row_form_ids(cells.drop_last());
        match cells.last().form {
            Some(f) => prev.push(f.id),
            None => prev,
        }
    }
}

/// The form ids of the filled cells of a table, row by row.
pub open spec fn table_form_ids(rows: Seq<Vec<ParadigmCell>>) -> Seq<i64>
    decreases rows.len(),
{
    if rows.len() == 0 {
        Seq::empty()
    } else {
        table_form_ids(rows.drop_last()) + row_form_ids(rows.last()@)
    }
}

/// The cells to be filled in the building drill, as form ids in table
/// order.
pub fn cell_form_ids(table: &ParadigmTable) -> (r: Vec<i64>)
    ensures
        r@ == table_form_ids(table.cells@),
{
    let mut r: Vec<i64> = Vec::new();
    let mut i: usize = 0;
    assert(table.cells@.take(0) =~= Seq::<Vec<ParadigmCell>>::empty());
    while i < table.cells.len()
        invariant
            i <= table.cells@.len(),
            r@ == table_form_ids(table.cells@.take(i as int)),
        decreases table.cells@.len() - i,
    {
        let row = &table.cells[i];
        assert(table.cells@.take(i + 1).drop_last() =~= table.cells@.take(i as int));
        assert(table.cells@.take(i + 1).last() == *row);
        let ghost base = r@;
        let mut j: usize = 0;
        assert(row@.take(0) =~= Seq::<ParadigmCell>::empty());
        assert(r@ =~= base + row_form_ids(row@.take(0)));
        while j < row.len()
            invariant
                j <= row@.len(),
                r@ == base + row_form_ids(row@.take(j as int)),
            decreases row@.len() - j,
        {
            assert(row@.take(j + 1).drop_last() =~= row@.take(j as int));
            assert(row@.take(j + 1).last() == row@[j as int]);
            match &row[j].form {
                Some(f) => {
                    r.push(f.id);
                    assert(r@ =~= base + row_form_ids(row@.take(j + 1)));
                },
                None => {},
            }
            j = j + 1;
        }
        assert(row@.take(row@.len() as int) =~= row@);
        i = i + 1;
    }
    assert(table.cells@.take(table.cells@.len() as int) =~= table.cells@);
    r
}

/// How many wrong options the building drill offers.
pub const BUILD_DISTRACTORS: usize = 3;

/// The wrong options for a cell: forms of the same part of speech with
/// another text, each text once, at most `n`, in catalogue order.
pub open spec fn game_distractors(all: Seq<Form>, target: Form, seen: Seq<Seq<char>>, n: nat) -> Seq<
    Form,
>
    decreases all.len(),
{
    if all.len() == 0 || n == 0 {
        Seq::empty()
    } else {
        let f = all[0];
        if f.id != target.id && opt_view(f.pos) == opt_view(target.pos) && f.greek_form@
            != target.greek_form@ && !seen.contains(f.greek_form@) {
            seq![f] + game_distractors(all.drop_first(), target, seen.push(f.greek_form@), (n - 1) as nat)
        } else {
            game_distractors(all.drop_first(), target, seen, n)
        }
    }
}

/// The options for a cell: the right form and its distractors, in display
/// order.
pub open spec fn game_choices(all: Seq<Form>, target: Form) -> Seq<Form> {
    sort_by_key(
        seq![target] + game_distractors(all, target, seq![target.greek_form@], BUILD_DISTRACTORS as nat),
        None,
    )
}

fn greek_seen(seen: &Vec<String>, t: &String) -> (r: bool)
    ensures
        r == crate::text::string_views(seen@).contains(t@),
{
    let mut i: usize = 0;
    while i < seen.len()
        invariant
            i <= seen@.len(),
            forall|j: int| 0 <= j < i ==> seen@[j]@ != t@,
        decreases seen@.len() - i,
    {
        if str_eq(seen[i].as_str(), t.as_str()) {
            assert(crate::text::string_views(seen@)[i as int] == t@);
            return true;
        }
        i = i + 1;
    }
    proof {
        let sv = crate::text::string_views(seen@);
        if sv.contains(t@) {
            let j = choose|j: int| 0 <= j < sv.len() && sv[j] == t@;
            assert(seen@[j]@ == t@);
        }
    }
    false
}

fn same_pos(a: &Option<String>, b: &Option<String>) -> (r: bool)
    ensures
        r == (opt_view(*a) == opt_view(*b)),
{
    match (a, b) {
        (Some(x), Some(y)) => str_eq(x.as_str(), y.as_str()),
        (None, None) => true,
        _ => false,
    }
}

/// The options offered for a cell of the building drill, as (form id,
/// text) pairs in display order.
pub fn build_game_choices(all: &[Form], target: &Form) -> (r: Vec<(i64, String)>)
    ensures
        r@.len() == game_choices(all@, *target).len(),
        forall|i: int|
            0 <= i < r@.len() ==> (#[trigger] r@[i]).0 == game_choices(all@, *target)[i].id
                && r@[i].1@ == game_choices(all@, *target)[i].greek_form@,
{
    let mut seen: Vec<String> = vec![target.greek_form.clone()];
    let mut picked: Vec<Form> = vec![target.duplicate()];
    let mut n: usize = BUILD_DISTRACTORS;
    let mut i: usize = 0;
    assert(crate::text::string_views(seen@) =~= seq![target.greek_form@]);
    assert(all@.skip(0) =~= all@);
    assert(picked@ + game_distractors(all@.skip(0), *target, crate::text::string_views(seen@), n as nat)
        =~= seq![*target] + game_distractors(all@, *target, seq![target.greek_form@], BUILD_DISTRACTORS as nat));
    while i < all.len() && n > 0
        invariant
            i <= all@.len(),
            n <= BUILD_DISTRACTORS,
            picked@ + game_distractors(all@.skip(i as int), *target, crate::text::string_views(seen@), n as nat)
                == seq![*target] + game_distractors(all@, *target, seq![target.greek_form@], BUILD_DISTRACTORS as nat),
        decreases all@.len() - i,
    {
        let f = &all[i];
        let ghost rest = all@.skip(i as int);
        let ghost sv = crate::text::string_views(seen@);
        assert(rest[0] == *f);
        assert(rest.drop_first() =~= all@.skip(i + 1));
        if f.id != target.id && same_pos(&f.pos, &target.pos) && !str_eq(
            f.greek_form.as_str(),
            target.greek_form.as_str(),
        ) && !greek_seen(&seen, &f.greek_form) {
            let ghost before = picked@;
            picked.push(f.duplicate());
            seen.push(f.greek_form.clone());
            assert(crate::text::string_views(seen@) =~= sv.push(f.greek_form@));
            assert(before + (seq![*f] + game_distractors(all@.skip(i + 1), *target, sv.push(f.greek_form@), (n - 1) as nat))
                =~= picked@ + game_distractors(all@.skip(i + 1), *target, sv.push(f.greek_form@), (n - 1) as nat));
            n = n - 1;
        }
        i = i + 1;
    }
    proof {
        assert(game_distractors(all@.skip(i as int), *target, crate::text::string_views(seen@), n as nat)
            =~= Seq::<Form>::empty());
        assert(picked@ + Seq::<Form>::empty() =~= picked@);
    }
    let sorted = sort_forms(&picked, None);
    let mut r: Vec<(i64, String)> = Vec::new();
    let mut k: usize = 0;
    while k < sorted.len()
        invariant
            k <= sorted@.len(),
            sorted@ == game_choices(all@, *target),
            r@.len() == k,
            forall|j: int|
                0 <= j < k ==> (#[trigger] r@[j]).0 == sorted@[j].id && r@[j].1@ == sorted@[j].greek_form@,
        decreases sorted@.len() - k,
    {
        r.push((sorted[k].id, sorted[k].greek_form.clone()));
        k = k + 1;
    }
    r
}

/// What the last pick in the building drill was.
#[derive(Clone, Copy, PartialEq, Eq, Structural, Debug)]
pub enum CellFeedback {
    Correct,
    Wrong,
}

/// Pause after a right pick in the building drill, in milliseconds.
pub const BUILD_RIGHT_PAUSE_MS: u32 = 700;

/// Pause after a wrong pick in the building drill, in milliseconds.
pub const BUILD_WRONG_PAUSE_MS: u32 = 1200;

/// The state of the building drill.
#[derive(Debug)]
pub struct BuildGameState {
    /// The form ids of the cells filled, each once.
    pub filled: Vec<i64>,
    /// The cell asked, counted over the cells.
    pub current: usize,
    /// The last pick, while its pause lasts.
    pub feedback: Option<CellFeedback>,
}

/// The cell asked: the cell at `current`, counted round the cells.
pub open spec fn asked_cell(ids: Seq<i64>, current: usize) -> Option<i64> {
    let n: int = if ids.len() == 0 {
        1
    } else {
        ids.len() as int
    };
    let k: int = current as int % n;
    if k < ids.len() {
        Some(ids[k])
    } else {
        None
    }
}

impl BuildGameState {
    /// A fresh drill: nothing filled, the first cell asked.
    pub fn new() -> (r: BuildGameState)
        ensures
            r.filled@ == Seq::<i64>::empty(),
            r.current == 0,
            r.feedback is None,
    {
        BuildGameState { filled: Vec::new(), current: 0, feedback: None }
    }

    /// Every cell is filled.
    pub fn is_done(&self, total: usize) -> (r: bool)
        ensures
            r == (self.filled@.len() >= total),
    {
        self.filled.len() >= total
    }

    /// The form id of the cell asked.
    pub fn asked(&self, ids: &Vec<i64>) -> (r: Option<i64>)
        ensures
            r == asked_cell(ids@, self.current),
    {
        let n = if ids.len() == 0 {
            1
        } else {
            ids.len()
        };
        let k = self.current % n;
        if k < ids.len() {
            Some(ids[k])
        } else {
            None
        }
    }

    /// An option is picked for the asked cell. While a pick's pause lasts
    /// nothing happens; otherwise a right pick fills the cell, and the
    /// pause before going on is returned.
    pub fn pick(&mut self, right: bool, target_id: i64) -> (r: Option<u32>)
        ensures
            old(self).feedback is Some ==> r is None && final(self).filled@ == old(self).filled@
                && final(self).current == old(self).current && final(self).feedback == old(
                self,
            ).feedback,
            old(self).feedback is None && right ==> {
                &&& r == Some(BUILD_RIGHT_PAUSE_MS)
                &&& final(self).feedback == Some(CellFeedback::Correct)
                &&& final(self).filled@ == if old(self).filled@.contains(target_id) {
                    old(self).filled@
                } else {
                    old(self).filled@.push(target_id)
                }
                &&& final(self).current == old(self).current
            },
            old(self).feedback is None && !right ==> {
                &&& r == Some(BUILD_WRONG_PAUSE_MS)
                &&& final(self).feedback == Some(CellFeedback::Wrong)
                &&& final(self).filled@ == old(self).filled@
                &&& final(self).current == old(self).current
            },
    {
        if self.feedback.is_some() {
            return None;
        }
        if right {
            if !ids_contain(&self.filled, target_id) {
                self.filled.push(target_id);
            }
            self.feedback = Some(CellFeedback::Correct);
            Some(BUILD_RIGHT_PAUSE_MS)
        } else {
            self.feedback = Some(CellFeedback::Wrong);
            Some(BUILD_WRONG_PAUSE_MS)
        }
    }

    /// The pause after a right pick is over: the next cell is asked.
    pub fn after_right_pause(&mut self, total: usize)
        requires
            old(self).current < usize::MAX,
        ensures
            final(self).current == (old(self).current + 1) % (if total == 0 {
                1
            } else {
                total as int
            }),
            final(self).feedback is None,
            final(self).filled@ == old(self).filled@,
    {
        let n = if total == 0 {
            1
        } else {
            total
        };
        self.current = (self.current + 1) % n;
        self.feedback = None;
    }

    /// The pause after a wrong pick is over: the same cell is asked again.
    pub fn after_wrong_pause(&mut self)
        ensures
            final(self).feedback is None,
            final(self).current == old(self).current,
            final(self).filled@ == old(self).filled@,
    {
        self.feedback = None;
    }

    /// Start the drill over.
    pub fn repeat(&mut self)
        ensures
            final(self).filled@ == Seq::<i64>::empty(),
            final(self).current == 0,
            final(self).feedback is None,
    {
        self.filled = Vec::new();
        self.current = 0;
        self.feedback = None;
    }
}

/// What a cell of the building drill shows.
#[derive(Clone, Copy, PartialEq, Eq, Structural, Debug)]
pub enum BuildCellText {
    /// The form's text: the cell is filled.
    FormText,
    /// A question mark: the cell is asked.
    Asked,
    /// A dot: the cell waits.
    Waiting,
    /// A dash: no form.
    NoForm,
}

/// How a cell of the building drill is drawn.
#[derive(Clone, Copy, PartialEq, Eq, Structural, Debug)]
pub enum BuildCellStyle {
    Empty,
    Active,
    ActiveCorrect,
    ActiveWrong,
    Filled,
    Pending,
}

pub open spec fn build_cell_of(
    form_id: Option<i64>,
    asked: Option<i64>,
    filled: Seq<i64>,
    feedback: Option<CellFeedback>,
) -> (BuildCellText, BuildCellStyle) {
    let is_active = form_id == asked;
    let is_filled = match form_id {
        Some(id) => filled.contains(id),
        None => false,
    };
    let text = if is_filled {
        BuildCellText::FormText
    } else if is_active {
        BuildCellText::Asked
    } else if form_id is Some {
        BuildCellText::Waiting
    } else {
        BuildCellText::NoForm
    };
    let style = if form_id is None {
        BuildCellStyle::Empty
    } else if is_active {
        match feedback {
            Some(CellFeedback::Correct) => BuildCellStyle::ActiveCorrect,
            Some(CellFeedback::Wrong) => BuildCellStyle::ActiveWrong,
            None => BuildCellStyle::Active,
        }
    } else if is_filled {
        BuildCellStyle::Filled
    } else {
        BuildCellStyle::Pending
    };
    (text, style)
}

/// What a cell of the building drill shows and how it is drawn.
pub fn build_cell(cell: &ParadigmCell, asked: Option<i64>, game: &BuildGameState) -> (r: (
    BuildCellText,
    BuildCellStyle,
))
    ensures
        r == build_cell_of(
            match cell.form {
                Some(f) => Some(f.id),
                None => None,
            },
            asked,
            game.filled@,
            game.feedback,
        ),
{
    let form_id = match &cell.form {
        Some(f) => Some(f.id),
        None => None,
    };
    let is_active = form_id == asked;
    let is_filled = match form_id {
        Some(id) => ids_contain(&game.filled, id),
        None => false,
    };
    let text = if is_filled {
        BuildCellText::FormText
    } else if is_active {
        BuildCellText::Asked
    } else if form_id.is_some() {
        BuildCellText::Waiting
    } else {
        BuildCellText::NoForm
    };
    let style = if form_id.is_none() {
        BuildCellStyle::Empty
    } else if is_active {
        match game.feedback {
            Some(CellFeedback::Correct) => BuildCellStyle::ActiveCorrect,
            Some(CellFeedback::Wrong) => BuildCellStyle::ActiveWrong,
            None => BuildCellStyle::Active,
        }
    } else if is_filled {
        BuildCellStyle::Filled
    } else {
        BuildCellStyle::Pending
    };
    (text, style)
}

/// A self-rating maps onto the answer scale 0..5: knowing the form is
/// instant recall (5), finding it hard is a correct answer with effort (3),
/// and not knowing it is a miss (below 3).
pub proof fn lemma_rating_quality(r: SelfRating)
    ensures
        rating_quality(r) <= 5,
        r == SelfRating::Knew ==> rating_quality(r) == 5,
        r == SelfRating::Hard ==> rating_quality(r) == 3,
        r == SelfRating::DidNotKnow ==> rating_quality(r) < 3,
{
}

} // verus!

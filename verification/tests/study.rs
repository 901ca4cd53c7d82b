use sfodra::study::{
    build_cell, build_game_choices, cell_form_ids, choice_look, fillin_diff_target, progress_percent, result_picture,
    session_length, BuildCellStyle, BuildCellText, BuildGameState, CellFeedback, ChoiceLook, Feedback,
    FillInState, FlashcardState, SelfRating,
};
use sfodra::form::{Form, Lemma};
use sfodra::paradigm::build_nominal_paradigm;
use sfodra::settings::UiLanguage;

fn form(id: i64, greek: &str, pos: &str, case: &str, number: &str) -> Form {
    Form {
        id,
        lemma_id: 1,
        greek_form: greek.to_string(),
        transliteration: None,
        category_id: None,
        pos: Some(pos.to_string()),
        case_tag: Some(case.to_string()),
        number_tag: Some(number.to_string()),
        gender_tag: None,
        tense_tag: None,
        voice_tag: None,
        mood_tag: None,
        person_tag: None,
        degree_tag: None,
        decl_type: None,
        conj_type: None,
        adj_class: None,
        part_type: None,
        num_type: None,
        pron_type: None,
        lesson_kozar: None,
        lesson_mast: None,
        paradigm_row: None,
        sort_order: 0,
        notes: None,
    }
}

fn lemma() -> Lemma {
    Lemma {
        id: 1,
        greek: "λόγος".to_string(),
        latin: None,
        english: None,
        russian: None,
        part_of_speech: Some("noun".to_string()),
        category_id: None,
        lesson_kozar: None,
        lesson_mast: None,
        sort_order: 0,
    }
}

#[test]
fn flashcard_pick_and_pause() {
    let mut s = FlashcardState::new();
    assert_eq!(s.pick(3, 3), Some((5, 1000)));
    assert_eq!(s.feedback, Some(Feedback::Correct));
    // A second pick during the pause is ignored.
    assert_eq!(s.pick(4, 3), None);
    s.after_pause(2);
    assert_eq!(s.index, 1);
    assert_eq!(s.feedback, None);
    assert_eq!(s.pick(4, 3), Some((1, 2000)));
    assert_eq!(s.feedback, Some(Feedback::Wrong(4)));
    s.after_pause(2);
    assert_eq!(s.index, 0);
    assert!(!s.revealed);
}

#[test]
fn flashcard_self_rating() {
    let mut s = FlashcardState::new();
    s.show_answer();
    assert!(s.revealed);
    assert_eq!(s.rate(SelfRating::Hard, 3), 3);
    assert_eq!(s.index, 1);
    assert!(!s.revealed);
    assert_eq!(s.rate(SelfRating::DidNotKnow, 3), 1);
    assert_eq!(s.rate(SelfRating::Knew, 3), 5);
    assert_eq!(s.index, 0);
}

#[test]
fn choice_looks() {
    assert_eq!(choice_look(None, 1, 1), ChoiceLook::Plain);
    assert_eq!(choice_look(Some(Feedback::Correct), 1, 1), ChoiceLook::Correct);
    assert_eq!(choice_look(Some(Feedback::Correct), 2, 1), ChoiceLook::Plain);
    assert_eq!(choice_look(Some(Feedback::Wrong(2)), 2, 1), ChoiceLook::Wrong);
    assert_eq!(choice_look(Some(Feedback::Wrong(2)), 1, 1), ChoiceLook::Correct);
    assert_eq!(choice_look(Some(Feedback::Wrong(2)), 3, 1), ChoiceLook::Plain);
}

#[test]
fn fillin_session_numbers() {
    assert_eq!(session_length(4), 4);
    assert_eq!(session_length(40), 10);
    assert_eq!(result_picture(3), 3);
    assert_eq!(result_picture(12), 10);
    assert_eq!(progress_percent(3, 10), 30);
    assert_eq!(progress_percent(1, 3), 33);
}

#[test]
fn flashcard_progress_over_a_long_deck() {
    assert_eq!(progress_percent(0, 250), 0);
    assert_eq!(progress_percent(125, 250), 50);
    assert_eq!(progress_percent(249, 250), 99);
}

#[test]
fn fillin_flow() {
    let mut s = FillInState::new();
    assert_eq!(s.submit("λόγος", true), None);
    s.input = "λογος".to_string();
    assert_eq!(s.submit("λόγος", true), Some((5, 800, 0)));
    assert!(s.is_correct);
    assert_eq!(s.correct, 1);
    // A stale timer does nothing; the current one moves on.
    s.timer_done(7);
    assert_eq!(s.index, 0);
    s.timer_done(0);
    assert_eq!(s.index, 1);
    assert_eq!(s.generation, 1);
    assert!(!s.submitted);
    assert!(s.input.is_empty());
    s.input = "λογοι".to_string();
    assert_eq!(s.submit("λόγος", true), Some((1, 4000, 1)));
    assert!(!s.is_correct);
    assert_eq!(s.correct, 1);
    let diff: Vec<bool> = s.answer_diff("λόγος", true).iter().map(|p| p.1).collect();
    assert_eq!(diff, vec![true, true, true, true, false]);
    s.skip();
    assert_eq!(s.index, 2);
    s.retry();
    assert_eq!((s.index, s.correct), (0, 0));
    assert!(!s.finished(10));
}

#[test]
fn fillin_diff_target_drops_article_when_answer_has_none() {
    assert_eq!(fillin_diff_target("λόγος", "ὁ λόγος"), "λόγος");
    assert_eq!(fillin_diff_target("ὁ λόγος", "ὁ λόγος"), "ὁ λόγος");
}

#[test]
fn build_game_cells_and_choices() {
    let forms = vec![form(1, "λόγος", "noun", "nom", "sg"), form(2, "λόγου", "noun", "gen", "sg")];
    let t = build_nominal_paradigm(lemma(), &forms, false, &["m"], &UiLanguage::Ru);
    assert_eq!(cell_form_ids(&t), vec![1, 2]);
    let all = vec![
        form(1, "λόγος", "noun", "nom", "sg"),
        form(2, "λόγου", "noun", "gen", "sg"),
        form(3, "λόγου", "noun", "gen", "sg"),
        form(4, "καί", "conj", "nom", "sg"),
        form(5, "λόγῳ", "noun", "dat", "sg"),
        form(6, "λόγον", "noun", "acc", "sg"),
        form(7, "λόγε", "noun", "voc", "sg"),
    ];
    let choices = build_game_choices(&all, &all[0]);
    let mut ids: Vec<i64> = choices.iter().map(|c| c.0).collect();
    assert_eq!(ids.len(), 4);
    ids.sort();
    assert_eq!(ids, vec![1, 2, 5, 6]);
    let key = |id: i64| (id as u64).wrapping_mul(6364136223846793005);
    assert!(choices.windows(2).all(|w| key(w[0].0) <= key(w[1].0)));
}

#[test]
fn build_game_progress() {
    let forms = vec![form(1, "λόγος", "noun", "nom", "sg"), form(2, "λόγου", "noun", "gen", "sg")];
    let t = build_nominal_paradigm(lemma(), &forms, false, &["m"], &UiLanguage::Ru);
    let ids = cell_form_ids(&t);
    let mut g = BuildGameState::new();
    assert_eq!(g.asked(&ids), Some(1));
    assert_eq!(build_cell(&t.cells[0][0], Some(1), &g), (BuildCellText::Asked, BuildCellStyle::Active));
    assert_eq!(build_cell(&t.cells[1][0], Some(1), &g), (BuildCellText::Waiting, BuildCellStyle::Pending));
    assert_eq!(build_cell(&t.cells[2][0], Some(1), &g), (BuildCellText::NoForm, BuildCellStyle::Empty));
    assert_eq!(g.pick(false, 1), Some(1200));
    assert_eq!(build_cell(&t.cells[0][0], Some(1), &g).1, BuildCellStyle::ActiveWrong);
    assert_eq!(g.pick(true, 1), None);
    g.after_wrong_pause();
    assert_eq!(g.pick(true, 1), Some(700));
    assert_eq!(g.feedback, Some(CellFeedback::Correct));
    g.after_right_pause(ids.len());
    assert_eq!(g.asked(&ids), Some(2));
    assert_eq!(build_cell(&t.cells[0][0], Some(2), &g), (BuildCellText::FormText, BuildCellStyle::Filled));
    g.pick(true, 2);
    g.after_right_pause(ids.len());
    assert!(g.is_done(ids.len()));
    g.repeat();
    assert!(!g.is_done(ids.len()));
}

use sfodra::browse::{cell_mark, paradigm_subtitle, present_genders, shown_tables, table_key_values, CellMark, TableKey};
use sfodra::form::{Form, Lemma};
use sfodra::paradigm::{build_nominal_paradigm, build_verb_paradigms, mood_order, num_label, tense_label, tense_order, voice_order};
use sfodra::settings::UiLanguage;
use sfodra::sm2::ReviewState;
use std::collections::HashMap;

fn lemma(id: i64, greek: &str, pos: &str) -> Lemma {
    Lemma {
        id,
        greek: greek.to_string(),
        latin: None,
        english: None,
        russian: None,
        part_of_speech: Some(pos.to_string()),
        category_id: None,
        lesson_kozar: None,
        lesson_mast: None,
        sort_order: 0,
    }
}

fn blank_form(id: i64, lemma_id: i64, greek: &str, pos: &str) -> Form {
    Form {
        id,
        lemma_id,
        greek_form: greek.to_string(),
        transliteration: None,
        category_id: None,
        pos: Some(pos.to_string()),
        case_tag: None,
        number_tag: None,
        gender_tag: None,
        tense_tag: None,
        voice_tag: None,
        mood_tag: None,
        person_tag: None,
        degree_tag: None,
        decl_type: None,
        conj_type: None,
        adj_class: None,
        part_type: None,
        num_type: None,
        pron_type: None,
        lesson_kozar: None,
        lesson_mast: None,
        paradigm_row: None,
        sort_order: 0,
        notes: None,
    }
}

fn noun(id: i64, greek: &str, case: &str, number: &str, gender: &str) -> Form {
    let mut f = blank_form(id, 1, greek, "noun");
    f.case_tag = Some(case.to_string());
    f.number_tag = Some(number.to_string());
    f.gender_tag = Some(gender.to_string());
    f
}

fn verb(id: i64, greek: &str, tense: &str, mood: &str, voice: &str, person: &str, number: &str) -> Form {
    let mut f = blank_form(id, 2, greek, "verb");
    f.tense_tag = Some(tense.to_string());
    f.mood_tag = Some(mood.to_string());
    f.voice_tag = Some(voice.to_string());
    if !person.is_empty() {
        f.person_tag = Some(person.to_string());
    }
    if !number.is_empty() {
        f.number_tag = Some(number.to_string());
    }
    f
}

fn cell_text(t: &sfodra::paradigm::ParadigmTable, r: usize, c: usize) -> Option<String> {
    t.cells[r][c].form.as_ref().map(|f| f.greek_form.clone())
}

#[test]
fn nominal_table_fills_cells() {
    let forms = vec![
        noun(1, "λόγος", "nom", "sg", "m"),
        noun(2, "λόγου", "gen", "sg", "m"),
        noun(3, "λόγοι", "nom", "pl", "m"),
    ];
    let t = build_nominal_paradigm(lemma(1, "λόγος", "noun"), &forms, false, &["m"], &UiLanguage::Ru);
    assert_eq!(t.row_headers, vec!["Им.", "Рд.", "Дт.", "Вн.", "Зв."]);
    assert_eq!(t.col_headers, vec!["Ед. М.р.", "Мн. М.р."]);
    assert_eq!(t.cells.len(), 5);
    assert_eq!(cell_text(&t, 0, 0), Some("λόγος".to_string()));
    assert_eq!(cell_text(&t, 1, 0), Some("λόγου".to_string()));
    assert_eq!(cell_text(&t, 0, 1), Some("λόγοι".to_string()));
    assert_eq!(cell_text(&t, 2, 0), None);
    assert!(t.title.is_none());
}

#[test]
fn nominal_table_with_dual_and_genders() {
    let forms = vec![
        noun(1, "ἀγαθός", "nom", "sg", "m"),
        noun(2, "ἀγαθή", "nom", "sg", "f"),
        noun(3, "ἀγαθώ", "nom", "du", "m"),
    ];
    let t = build_nominal_paradigm(lemma(1, "ἀγαθός", "adj"), &forms, true, &["m", "f"], &UiLanguage::En);
    assert_eq!(t.col_headers, vec!["Sg M", "Sg F", "Du M", "Du F", "Pl M", "Pl F"]);
    assert_eq!(cell_text(&t, 0, 0), Some("ἀγαθός".to_string()));
    assert_eq!(cell_text(&t, 0, 1), Some("ἀγαθή".to_string()));
    assert_eq!(cell_text(&t, 0, 2), Some("ἀγαθώ".to_string()));
    assert_eq!(cell_text(&t, 0, 3), None);
}

#[test]
fn verb_tables_in_display_order() {
    let forms = vec![
        verb(1, "ἔλυσα", "aor1", "ind", "act", "1", "sg"),
        verb(2, "λύω", "pres", "ind", "act", "1", "sg"),
        verb(3, "λύε", "pres", "imp", "act", "2", "sg"),
        verb(4, "λύομαι", "pres", "ind", "mid", "1", "sg"),
        verb(5, "λύειν", "pres", "inf", "act", "", ""),
    ];
    let ts = build_verb_paradigms(lemma(2, "λύω", "verb"), &forms, false, &UiLanguage::En);
    assert_eq!(ts.len(), 5);
    let keys: Vec<(String, String, String)> = ts[..4]
        .iter()
        .map(|t| (t.tense_key.clone().unwrap(), t.mood_key.clone().unwrap(), t.voice_key.clone().unwrap()))
        .collect();
    assert_eq!(
        keys,
        vec![
            ("pres".to_string(), "ind".to_string(), "act".to_string()),
            ("pres".to_string(), "ind".to_string(), "mid".to_string()),
            ("pres".to_string(), "imp".to_string(), "act".to_string()),
            ("aor1".to_string(), "ind".to_string(), "act".to_string()),
        ]
    );
    // The imperative table has the 2nd person only (no 3rd person form).
    assert_eq!(ts[2].row_headers, vec!["2nd"]);
    assert_eq!(cell_text(&ts[2], 0, 0), Some("λύε".to_string()));
    assert_eq!(ts[0].col_headers, vec!["Sg", "Pl"]);
    // Infinitives come last, in one row.
    assert_eq!(ts[4].mood_key.as_deref(), Some("inf"));
    assert_eq!(ts[4].title.as_deref(), Some("Infinitive"));
    assert_eq!(ts[4].cells.len(), 1);
    assert_eq!(cell_text(&ts[4], 0, 0), Some("λύειν".to_string()));
}

#[test]
fn verb_without_forms_has_no_tables() {
    let ts = build_verb_paradigms(lemma(2, "λύω", "verb"), &[], true, &UiLanguage::Ru);
    assert!(ts.is_empty());
}

#[test]
fn labels_and_orders() {
    assert_eq!(num_label("du", &UiLanguage::Ru), "Дв.");
    assert_eq!(num_label("xx", &UiLanguage::En), "?");
    assert_eq!(tense_label("aor2", &UiLanguage::En), "Aor.II");
    assert_eq!(tense_label("xyz", &UiLanguage::Ru), "xyz");
    assert!(tense_order("pres") < tense_order("aor1"));
    assert!(mood_order("ind") < mood_order("imp"));
    assert!(voice_order("act") < voice_order("pass"));
}

#[test]
fn future_perfect_has_a_label() {
    assert_eq!(tense_label("futperf", &UiLanguage::En), "Fut.Pf");
    assert_eq!(tense_label("futperf", &UiLanguage::Ru), "Буд.перф.");
}

#[test]
fn genders_present_in_order() {
    let forms = vec![noun(1, "a", "nom", "sg", "n"), noun(2, "b", "nom", "sg", "m")];
    assert_eq!(present_genders(&forms), vec!["m", "n"]);
    assert_eq!(present_genders(&[]), vec!["m"]);
}

#[test]
fn subtitles() {
    let mut f = noun(1, "λόγος", "nom", "sg", "m");
    f.decl_type = Some("2a".to_string());
    assert_eq!(paradigm_subtitle("noun", &[f.clone()], &UiLanguage::Ru), "2-е склонение");
    assert_eq!(paradigm_subtitle("noun", &[f], &UiLanguage::En), "2nd declension");
    let mut v = verb(2, "λύω", "pres", "ind", "act", "1", "sg");
    v.conj_type = Some("mi_verb".to_string());
    assert_eq!(paradigm_subtitle("verb", &[v], &UiLanguage::En), "-μι type");
    let mut p = blank_form(3, 3, "λύων", "participle");
    p.part_type = Some("pres_act".to_string());
    assert_eq!(paradigm_subtitle("participle", &[p], &UiLanguage::En), "participle · pres. act.");
    assert_eq!(paradigm_subtitle("participle", &[], &UiLanguage::Ru), "причастие");
    assert_eq!(paradigm_subtitle("adj", &[], &UiLanguage::Ru), "");
}

#[test]
fn verb_chips_and_filters() {
    let forms = vec![
        verb(1, "ἔλυσα", "aor1", "ind", "act", "1", "sg"),
        verb(2, "λύω", "pres", "ind", "act", "1", "sg"),
        verb(3, "λύομαι", "pres", "ind", "mid", "1", "sg"),
    ];
    let ts = build_verb_paradigms(lemma(2, "λύω", "verb"), &forms, false, &UiLanguage::En);
    assert_eq!(table_key_values(&ts, TableKey::Tense), vec!["pres".to_string(), "aor1".to_string()]);
    assert_eq!(table_key_values(&ts, TableKey::Voice), vec!["act".to_string(), "mid".to_string()]);
    let shown = shown_tables(&ts, &vec!["pres".to_string()], &vec![], &vec![]);
    assert_eq!(shown, vec![0, 1]);
    let shown = shown_tables(&ts, &vec![], &vec!["act".to_string()], &vec![]);
    assert_eq!(shown, vec![0, 2]);
}

#[test]
fn cell_marks_follow_streak() {
    let forms = vec![noun(7, "λόγος", "nom", "sg", "m")];
    let t = build_nominal_paradigm(lemma(1, "λόγος", "noun"), &forms, false, &["m"], &UiLanguage::Ru);
    let mut progress: HashMap<i64, ReviewState> = HashMap::new();
    assert_eq!(cell_mark(&t.cells[0][0], &progress), CellMark::Plain);
    assert_eq!(cell_mark(&t.cells[1][0], &progress), CellMark::Empty);
    let mut r = ReviewState::new(7);
    r.streak = 2;
    progress.insert(7, r);
    assert_eq!(cell_mark(&t.cells[0][0], &progress), CellMark::Seen);
    r.streak = 5;
    progress.insert(7, r);
    assert_eq!(cell_mark(&t.cells[0][0], &progress), CellMark::Learned);
}

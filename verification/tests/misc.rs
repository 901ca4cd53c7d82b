use sfodra::category::{assemble_loaded, build_category_tree, FlatCategory};
use sfodra::filter::{tag_field, tag_field_mut, toggle_id, toggle_text, FilterParams};
use sfodra::form::{Category, Form};
use sfodra::i18n::{t, UiKey};
use sfodra::quiz::{build_same_lemma_choices, build_same_lemma_grammar_choices, build_shuffled_order};
use sfodra::settings::{Settings, SidePanels, Theme, UiLanguage};
use sfodra::sm2::{answer_fits_check, progress_counts, quality_from_answer, record_answer, sm2_update, ReviewState};
use sfodra::tags::{Case, Degree, GNumber, Gender, Mood, Person, Pos, Tense, Voice};
use std::collections::HashMap;

fn form(id: i64, lemma_id: i64, greek: &str, case: &str, number: &str) -> Form {
    Form {
        id,
        lemma_id,
        greek_form: greek.to_string(),
        transliteration: None,
        category_id: None,
        pos: Some("noun".to_string()),
        case_tag: Some(case.to_string()),
        number_tag: Some(number.to_string()),
        gender_tag: None,
        tense_tag: None,
        voice_tag: None,
        mood_tag: None,
        person_tag: None,
        degree_tag: None,
        decl_type: None,
        conj_type: None,
        adj_class: None,
        part_type: None,
        num_type: None,
        pron_type: None,
        lesson_kozar: None,
        lesson_mast: None,
        paradigm_row: None,
        sort_order: 0,
        notes: None,
    }
}

fn flat(id: i64, parent: Option<i64>, depth: i32, sort_order: i32) -> FlatCategory {
    FlatCategory {
        id,
        parent_id: parent,
        code: None,
        name_ru: format!("к{}", id),
        name_en: format!("c{}", id),
        name_gr: None,
        depth,
        sort_order,
        description: None,
    }
}

fn shape(c: &Category) -> String {
    if c.children.is_empty() {
        c.id.to_string()
    } else {
        let kids: Vec<String> = c.children.iter().map(shape).collect();
        format!("{}({})", c.id, kids.join(","))
    }
}

#[test]
fn category_tree_nests_children() {
    let cats = vec![
        flat(0, None, 0, 0),
        flat(1, Some(0), 0, 2),
        flat(2, Some(0), 0, 1),
        flat(3, Some(1), 1, 1),
        flat(4, Some(1), 1, 2),
        flat(5, Some(3), 2, 1),
    ];
    let tree = build_category_tree(cats);
    let shapes: Vec<String> = tree.iter().map(shape).collect();
    // Top level by sort order; children attached deepest and last first.
    assert_eq!(shapes, vec!["2".to_string(), "1(4,3(5))".to_string()]);
}

#[test]
fn category_tree_edge_cases() {
    // A node naming a missing parent stays on top; one naming itself is lost.
    let cats = vec![flat(1, Some(9), 1, 1), flat(2, Some(2), 1, 2), flat(3, None, 0, 0)];
    let shapes: Vec<String> = build_category_tree(cats).iter().map(shape).collect();
    assert_eq!(shapes, vec!["3".to_string(), "1".to_string()]);
    // A later category with the same id replaces the earlier one.
    let cats = vec![flat(1, None, 0, 5), flat(1, None, 0, 1), flat(2, None, 0, 3)];
    let tree = build_category_tree(cats);
    assert_eq!(tree.len(), 2);
    assert_eq!(tree[0].id, 1);
    assert_eq!(tree[0].sort_order, 1);
    assert!(build_category_tree(vec![]).is_empty());
}

fn all_ids(cs: &[Category], out: &mut Vec<i64>) {
    for c in cs {
        out.push(c.id);
        all_ids(&c.children, out);
    }
}

#[test]
fn category_tree_holds_each_id_once() {
    let cats = vec![
        flat(0, None, 0, 0),
        flat(7, Some(0), 0, 3),
        flat(8, Some(7), 1, 1),
        flat(9, Some(8), 2, 1),
        flat(10, Some(7), 1, 0),
        flat(11, Some(42), 1, 0),
    ];
    let mut ids = Vec::new();
    all_ids(&build_category_tree(cats), &mut ids);
    ids.sort();
    assert_eq!(ids, vec![7, 8, 9, 10, 11]);
}

#[test]
fn category_tree_parent_at_same_depth_sorted_first() {
    // Category 2 shares its depth with its subcategory 3 but sorts before it,
    // so 3 is placed before 2 moves under 1.
    let cats = vec![flat(1, None, 0, 0), flat(2, Some(1), 1, 1), flat(3, Some(2), 1, 2)];
    let shapes: Vec<String> = build_category_tree(cats).iter().map(shape).collect();
    assert_eq!(shapes, vec!["1(2(3))".to_string()]);
    // The other way round, 3 sorts before its parent and stays on top.
    let cats = vec![flat(1, None, 0, 0), flat(2, Some(1), 1, 2), flat(3, Some(2), 1, 1)];
    let shapes: Vec<String> = build_category_tree(cats).iter().map(shape).collect();
    assert_eq!(shapes, vec!["1(2)".to_string(), "3".to_string()]);
}

#[test]
fn category_tree_parent_deeper_than_child_keeps_child_on_top() {
    // Category 2 is stored deeper than its own subcategory 3, so 2 is placed
    // under 1 before 3 looks for it, and 3 stays on the top level.
    let cats = vec![flat(1, None, 0, 0), flat(2, Some(1), 2, 0), flat(3, Some(2), 1, 0)];
    let shapes: Vec<String> = build_category_tree(cats).iter().map(shape).collect();
    assert_eq!(shapes, vec!["1(2)".to_string(), "3".to_string()]);
}

#[test]
fn shuffled_order_is_a_permutation_without_neighbours() {
    let forms = vec![
        form(1, 1, "a", "nom", "sg"),
        form(2, 1, "b", "gen", "sg"),
        form(3, 2, "c", "nom", "sg"),
        form(4, 2, "d", "gen", "sg"),
        form(5, 3, "e", "nom", "sg"),
        form(6, 3, "f", "gen", "sg"),
    ];
    for seed in [0u64, 1, 42, 123456789] {
        let order = build_shuffled_order(&forms, seed);
        let mut sorted = order.clone();
        sorted.sort();
        assert_eq!(sorted, vec![0, 1, 2, 3, 4, 5]);
        assert_eq!(order, build_shuffled_order(&forms, seed));
    }
    assert!(build_shuffled_order(&[], 7).is_empty());
}

#[test]
fn same_lemma_choices() {
    let forms = vec![
        form(1, 1, "λόγος", "nom", "sg"),
        form(2, 1, "λόγου", "gen", "sg"),
        form(3, 1, "λόγου", "gen", "sg"),
        form(4, 2, "χώρα", "nom", "sg"),
        form(5, 1, "λόγῳ", "dat", "sg"),
    ];
    let c = build_same_lemma_choices(&forms, &forms[0], 6);
    let ids: Vec<i64> = c.iter().map(|f| f.id).collect();
    assert_eq!(ids, vec![1, 2, 5]);
    let ids: Vec<i64> = build_same_lemma_choices(&forms, &forms[0], 2).iter().map(|f| f.id).collect();
    assert_eq!(ids, vec![1, 2]);
    let g = build_same_lemma_grammar_choices(&forms, &forms[0], 6);
    assert!(g.iter().any(|f| f.id == 1));
    assert!(g.iter().all(|f| f.lemma_id == 1));
    assert_eq!(g.len(), 3);
}

#[test]
fn sm2_steps() {
    let mut r = ReviewState::new(1);
    assert!(r.is_due_at(0));
    sm2_update(&mut r, 5, 0, 1000);
    assert_eq!((r.correct, r.streak, r.interval_days), (1, 1, 1));
    assert_eq!(r.next_review, 1000 + 86_400);
    assert!(!r.is_due_at(1000));
    sm2_update(&mut r, 5, 0, 2000);
    assert_eq!(r.interval_days, 6);
    sm2_update(&mut r, 4, 15, 3000);
    assert_eq!(r.interval_days, 15);
    sm2_update(&mut r, 1, 99, 4000);
    assert_eq!((r.streak, r.interval_days, r.incorrect), (0, 1, 1));
    assert!(!r.is_learned());
    assert_eq!(quality_from_answer(true, false), 5);
    assert_eq!(quality_from_answer(true, true), 3);
    assert_eq!(quality_from_answer(false, false), 1);
}

#[test]
fn sm2_learned_after_five() {
    let mut r = ReviewState::new(1);
    for k in 0..5 {
        sm2_update(&mut r, 5, 10, k * 10);
    }
    assert!(r.is_learned());
}

#[test]
fn recording_answers() {
    let mut p: HashMap<i64, ReviewState> = HashMap::new();
    let r0 = ReviewState::new(3);
    assert!(answer_fits_check(&r0, 5, 0, 0));
    assert!(!answer_fits_check(&r0, 5, 0, i64::MAX));
    record_answer(&mut p, 3, 5, 0, 100);
    record_answer(&mut p, 3, 1, 0, 200);
    record_answer(&mut p, 4, 5, 0, 300);
    assert_eq!(p[&3].correct, 1);
    assert_eq!(p[&3].incorrect, 1);
    assert_eq!(p[&4].streak, 1);
    let recs: Vec<ReviewState> = vec![p[&3], p[&4]];
    let c = progress_counts(10, &recs, 2);
    assert_eq!((c.total, c.seen, c.learned, c.correct, c.incorrect, c.sessions), (10, 2, 0, 2, 1, 2));
}

#[test]
fn filter_matching_and_chips() {
    let f = form(1, 1, "λόγος", "nom", "sg");
    assert!(FilterParams::default().matches_form(&f));
    assert!(FilterParams::default().with_pos("noun".to_string()).matches_form(&f));
    assert!(!FilterParams::default().with_pos("verb".to_string()).matches_form(&f));
    assert!(!FilterParams::default().with_case("gen".to_string()).matches_form(&f));
    let mut p = FilterParams::default();
    p.toggle_tag("case", "gen");
    assert_eq!(tag_field(&p, "case"), &vec!["gen".to_string()]);
    tag_field_mut(&mut p, "mood").push("ind".to_string());
    assert_eq!(p.moods, vec!["ind".to_string()]);
    p.toggle_tag("case", "gen");
    assert!(p.cases.is_empty());
    p.toggle_tag("unknown", "pres");
    assert_eq!(p.tenses, vec!["pres".to_string()]);
    p.toggle_pos("noun");
    assert_eq!(p.pos, vec!["noun".to_string()]);
    p.toggle_lemma(7);
    p.toggle_lemma(8);
    p.toggle_lemma(7);
    assert_eq!(p.lemma_ids, vec![8]);
    p.remove_lemma(8);
    assert!(p.lemma_ids.is_empty());
    let mut v = vec!["a".to_string(), "b".to_string(), "a".to_string()];
    toggle_text(&mut v, "a");
    assert_eq!(v, vec!["b".to_string()]);
    let mut ids = vec![1, 2, 1];
    toggle_id(&mut ids, 1);
    assert_eq!(ids, vec![2]);
    toggle_id(&mut ids, 3);
    assert_eq!(ids, vec![2, 3]);
}

#[test]
fn themes_cycle() {
    assert_eq!(Theme::GruvboxLight.next(), Theme::GruvboxDark);
    assert_eq!(Theme::GruvboxLight.prev(), Theme::SeriousBlueDark);
    assert_eq!(Theme::SeriousBlueDark.next(), Theme::GruvboxLight);
    for th in Theme::all() {
        assert_eq!(th.next().prev(), *th);
    }
    assert_eq!(Theme::all().len(), 15);
}

#[test]
fn side_panels() {
    let mut p = SidePanels::closed();
    p.toggle_filters(true);
    assert!(p.filters_open);
    p.toggle_settings(true);
    assert!(p.settings_open && !p.filters_open);
    p.toggle_filters(false);
    assert!(p.settings_open && p.filters_open);
}

#[test]
fn settings_and_texts() {
    let s = Settings::default();
    assert_eq!(s.language, UiLanguage::Ru);
    assert_eq!(t(UiKey::SettingsTitle, UiLanguage::Ru), "Настройки");
    assert_eq!(t(UiKey::SettingsTitle, UiLanguage::En), "Settings");
}

#[test]
fn every_ui_text_is_present_and_translated() {
    let keys = [
        UiKey::SettingsTitle, UiKey::SettingsTheme, UiKey::SettingsFont, UiKey::SettingsOptions,
        UiKey::SettingsIgnoreDiacritics, UiKey::SettingsShowTransliteration, UiKey::SettingsIncludeDual,
        UiKey::FiltersTitle, UiKey::FiltersPos, UiKey::FiltersTense, UiKey::FiltersPerson, UiKey::FiltersVoice,
        UiKey::FiltersMood, UiKey::FiltersCase, UiKey::FiltersNumber, UiKey::FiltersWords, UiKey::FiltersReset,
        UiKey::FiltersSearch, UiKey::BuilderTitle, UiKey::BuilderSavedNominal, UiKey::BuilderSavedVerb,
        UiKey::BuilderLemmaField, UiKey::BuilderTranslationField, UiKey::BuilderSaveBtn, UiKey::ModeParadigm,
        UiKey::ModeFlashcard, UiKey::ModeFlashcardRev, UiKey::ModeFillIn, UiKey::ProgressTitle, UiKey::Back,
        UiKey::Reset, UiKey::Delete,
    ];
    for k in keys {
        assert!(!t(k, UiLanguage::Ru).is_empty());
        assert!(!t(k, UiLanguage::En).is_empty());
        assert_ne!(t(k, UiLanguage::Ru), t(k, UiLanguage::En));
    }
    assert_eq!(t(UiKey::AppTitle, UiLanguage::Ru), "σφόδρα");
    assert_eq!(t(UiKey::AppTitle, UiLanguage::En), "σφόδρα");
}

#[test]
fn tag_vocabulary() {
    assert_eq!(Pos::from_str("verb"), Pos::Verb);
    assert_eq!(Pos::from_str("xyz"), Pos::Other);
    assert_eq!(Pos::Verb.label_ru(), "Глагол");
    assert_eq!(Case::from_str("gen"), Some(Case::Gen));
    assert_eq!(Case::Gen.to_db(), "gen");
    assert_eq!(Tense::from_str("aor1").map(|t| t.to_db()), Some("aor1"));
}

#[test]
fn tag_round_trips() {
    for p in ["noun", "verb", "adj", "pronoun", "article", "num", "participle", "letter", "term"] {
        assert_eq!(Pos::from_str(p).to_db(), p);
    }
    for c in Case::all() {
        assert_eq!(Case::from_str(c.to_db()), Some(*c));
    }
    for n in GNumber::all() {
        assert_eq!(GNumber::from_str(n.to_db()), Some(*n));
    }
    for g in Gender::all() {
        assert_eq!(Gender::from_str(g.to_db()), Some(*g));
    }
    for t in Tense::all() {
        assert_eq!(Tense::from_str(t.to_db()), Some(*t));
    }
    for v in Voice::all() {
        assert_eq!(Voice::from_str(v.to_db()), Some(*v));
    }
    for m in Mood::all() {
        assert_eq!(Mood::from_str(m.to_db()), Some(*m));
    }
    for p in Person::all() {
        assert_eq!(Person::from_str(p.to_db()), Some(*p));
    }
    assert_eq!(Degree::from_str("comp"), Some(Degree::Comp));
    assert_eq!(Degree::from_str("best"), None);
    assert_eq!(Degree::Comp.label_en(), "Comp");
}

#[test]
fn loaded_data_assembles_categories() {
    let d = assemble_loaded(vec![], vec![form(1, 1, "a", "nom", "sg")], vec![flat(2, None, 0, 0), flat(3, Some(2), 1, 0)], vec![]);
    assert_eq!(d.forms.len(), 1);
    assert_eq!(d.categories.len(), 1);
    assert_eq!(shape(&d.categories[0]), "2(3)");
}

#[test]
fn chip_rows_follow_parts_of_speech() {
    let mut p = FilterParams::default();
    assert!(!p.shows_verb_chips());
    assert!(!p.shows_case_chips());
    p.toggle_pos("verb");
    assert!(p.shows_verb_chips());
    assert!(!p.shows_case_chips());
    p.toggle_pos("article");
    assert!(p.shows_case_chips());
}

#[test]
fn shuffled_order_exact_values() {
    let six = vec![
        form(1, 1, "a", "nom", "sg"),
        form(2, 1, "b", "gen", "sg"),
        form(3, 2, "c", "nom", "sg"),
        form(4, 2, "d", "gen", "sg"),
        form(5, 3, "e", "nom", "sg"),
        form(6, 3, "f", "gen", "sg"),
    ];
    assert_eq!(build_shuffled_order(&six, 0), vec![2, 5, 1, 3, 4, 0]);
    assert_eq!(build_shuffled_order(&six, 42), vec![5, 2, 0, 3, 1, 4]);
    let four = vec![
        form(1, 1, "a", "nom", "sg"),
        form(2, 1, "b", "gen", "sg"),
        form(3, 1, "c", "dat", "sg"),
        form(4, 2, "d", "nom", "sg"),
    ];
    assert_eq!(build_shuffled_order(&four, 7), vec![1, 3, 2, 0]);
    let five = vec![
        form(1, 1, "a", "nom", "sg"),
        form(2, 1, "b", "gen", "sg"),
        form(3, 1, "c", "dat", "sg"),
        form(4, 1, "d", "acc", "sg"),
        form(5, 2, "e", "nom", "sg"),
    ];
    assert_eq!(build_shuffled_order(&five, 123456789), vec![4, 1, 3, 2, 0]);
}

use sfodra::builder::{
    compute_init_state, default_init, nominal_draft, nominal_entries, toggle_required_option, verb_cell_key,
    verb_draft, verb_entries, CellMap,
};
use sfodra::catalog::{Catalog, CustomData, CustomFormEntry, CustomNominalParadigmDraft, CustomVerbFormEntry, CustomVerbParadigmDraft};
use sfodra::filter::FilterParams;
use sfodra::form::{Form, Lemma};
use sfodra::search::{build_search, str_contains, text_le};
use sfodra::sm2::ReviewState;
use std::collections::HashMap;

fn lemma(id: i64, greek: &str, pos: &str, russian: Option<&str>) -> Lemma {
    Lemma {
        id,
        greek: greek.to_string(),
        latin: None,
        english: None,
        russian: russian.map(|s| s.to_string()),
        part_of_speech: Some(pos.to_string()),
        category_id: None,
        lesson_kozar: None,
        lesson_mast: None,
        sort_order: 0,
    }
}

fn form(id: i64, lemma_id: i64, greek: &str, pos: &str, case: Option<&str>, number: Option<&str>) -> Form {
    Form {
        id,
        lemma_id,
        greek_form: greek.to_string(),
        transliteration: None,
        category_id: None,
        pos: Some(pos.to_string()),
        case_tag: case.map(|s| s.to_string()),
        number_tag: number.map(|s| s.to_string()),
        gender_tag: None,
        tense_tag: None,
        voice_tag: None,
        mood_tag: None,
        person_tag: None,
        degree_tag: None,
        decl_type: None,
        conj_type: None,
        adj_class: None,
        part_type: None,
        num_type: None,
        pron_type: None,
        lesson_kozar: None,
        lesson_mast: None,
        paradigm_row: None,
        sort_order: 0,
        notes: None,
    }
}

fn catalog() -> Catalog {
    let lemmas = vec![
        lemma(1, "λόγος", "noun", Some("слово")),
        lemma(2, "ἄνθρωπος", "noun", Some("человек")),
        lemma(3, "καί", "conj", Some("и")),
    ];
    let forms = vec![
        form(10, 1, "λόγος", "noun", Some("nom"), Some("sg")),
        form(11, 1, "λόγου", "noun", Some("gen"), Some("sg")),
        form(20, 2, "ἄνθρωπος", "noun", Some("nom"), Some("sg")),
        form(30, 3, "καί", "conj", None, None),
    ];
    Catalog::init(forms, lemmas, CustomData { lemmas: vec![], forms: vec![] })
}

#[test]
fn catalog_lookups() {
    let c = catalog();
    assert_eq!(c.lemma_by_id(2).map(|l| l.greek), Some("ἄνθρωπος".to_string()));
    assert!(c.lemma_by_id(9).is_none());
    assert!(c.lemma_has_paradigm(1));
    assert!(!c.lemma_has_paradigm(3));
    let ids: Vec<i64> = c.paradigm_forms_for_lemma(1).iter().map(|f| f.id).collect();
    assert_eq!(ids, vec![10, 11]);
}

#[test]
fn filtered_forms_follow_filter() {
    let c = catalog();
    let progress: HashMap<i64, ReviewState> = HashMap::new();
    let all = c.filtered_forms(&FilterParams::default(), false, &progress, 0);
    assert_eq!(all.len(), 3);
    let f = FilterParams::default().with_case("gen".to_string());
    let ids: Vec<i64> = c.filtered_forms(&f, false, &progress, 0).iter().map(|f| f.id).collect();
    assert_eq!(ids, vec![11]);
}

#[test]
fn add_nominal_paradigm_and_remove_it() {
    let mut c = catalog();
    let err = c.add_custom_nominal_paradigm(CustomNominalParadigmDraft {
        lemma_greek: "  ".to_string(),
        translation: None,
        pos: "noun".to_string(),
        gender: None,
        entries: vec![],
    });
    assert_eq!(err, Err("Укажите заголовочную форму леммы.".to_string()));
    let err = c.add_custom_nominal_paradigm(CustomNominalParadigmDraft {
        lemma_greek: "χώρα".to_string(),
        translation: None,
        pos: "noun".to_string(),
        gender: None,
        entries: vec![CustomFormEntry { case_tag: "nom".into(), number_tag: "sg".into(), greek_form: " ".into() }],
    });
    assert_eq!(err, Err("Заполните хотя бы одну форму в парадигме.".to_string()));
    assert_eq!(c.lemmas.len(), 3);
    let ok = c.add_custom_nominal_paradigm(CustomNominalParadigmDraft {
        lemma_greek: " χώρα ".to_string(),
        translation: Some("страна".to_string()),
        pos: "noun".to_string(),
        gender: Some("f".to_string()),
        entries: vec![
            CustomFormEntry { case_tag: "nom".into(), number_tag: "sg".into(), greek_form: "χώρα".into() },
            CustomFormEntry { case_tag: "gen".into(), number_tag: "sg".into(), greek_form: "".into() },
            CustomFormEntry { case_tag: "gen".into(), number_tag: "pl".into(), greek_form: " χωρῶν ".into() },
        ],
    });
    assert_eq!(ok, Ok(()));
    let l = c.lemmas.last().unwrap().clone();
    assert_eq!(l.id, 4);
    assert_eq!(l.greek, "χώρα");
    assert_eq!(c.custom_lemmas.len(), 1);
    let added: Vec<(i64, String)> = c.forms[4..].iter().map(|f| (f.id, f.greek_form.clone())).collect();
    assert_eq!(added, vec![(31, "χώρα".to_string()), (32, "χωρῶν".to_string())]);
    assert_eq!(c.forms[4].gender_tag.as_deref(), Some("f"));
    let mut filter = FilterParams::default();
    filter.lemma_ids = vec![4, 1];
    c.remove_custom_paradigm(4, &mut filter);
    assert_eq!(c.lemmas.len(), 3);
    assert_eq!(c.forms.len(), 4);
    assert!(c.custom_lemmas.is_empty());
    assert_eq!(filter.lemma_ids, vec![1]);
}

#[test]
fn add_verb_paradigm() {
    let mut c = catalog();
    let err = c.add_custom_verb_paradigm(CustomVerbParadigmDraft {
        lemma_greek: "λύω".to_string(),
        translation: None,
        entries: vec![],
    });
    assert_eq!(err, Err("Заполните хотя бы одну глагольную форму в парадигме.".to_string()));
    let ok = c.add_custom_verb_paradigm(CustomVerbParadigmDraft {
        lemma_greek: "λύω".to_string(),
        translation: None,
        entries: vec![CustomVerbFormEntry {
            tense_tag: "pres".into(),
            mood_tag: "ind".into(),
            voice_tag: "act".into(),
            person_tag: "1".into(),
            number_tag: "sg".into(),
            greek_form: "λύω".into(),
        }],
    });
    assert_eq!(ok, Ok(()));
    let f = c.forms.last().unwrap();
    assert_eq!(f.pos.as_deref(), Some("verb"));
    assert_eq!(f.mood_tag.as_deref(), Some("ind"));
    assert!(c.lemma_has_paradigm(4));
}

#[test]
fn cell_keys_and_map() {
    assert_eq!(verb_cell_key("pres", "ind", "act", "1", "sg"), "verb:pres:ind:act:1:sg");
    let mut m = CellMap::new();
    m.insert("nom:sg".to_string(), "χώρα".to_string());
    m.insert("gen:sg".to_string(), "χώρας".to_string());
    m.insert("nom:sg".to_string(), "ἡ χώρα".to_string());
    assert_eq!(m.len(), 2);
    assert_eq!(m.get("nom:sg").map(|s| s.as_str()), Some("ἡ χώρα"));
    assert_eq!(m.get("dat:sg"), None);
    m.clear();
    assert_eq!(m.len(), 0);
}

#[test]
fn cells_are_read_back_as_entries() {
    let mut m = CellMap::new();
    m.insert(verb_cell_key("pres", "ind", "act", "1", "sg"), "λύω".to_string());
    m.insert(verb_cell_key("pres", "ind", "act", "2", "sg"), "  ".to_string());
    m.insert("nom:sg".to_string(), "χώρα".to_string());
    m.insert("gen:".to_string(), "χώρας".to_string());
    let v = verb_entries(&m);
    assert_eq!(v.len(), 1);
    assert_eq!((v[0].tense_tag.as_str(), v[0].person_tag.as_str(), v[0].greek_form.as_str()), ("pres", "1", "λύω"));
    let n = nominal_entries(&m);
    assert_eq!(n.len(), 1);
    assert_eq!((n[0].case_tag.as_str(), n[0].number_tag.as_str()), ("nom", "sg"));
}

#[test]
fn required_option_toggle() {
    let mut v = vec!["pres".to_string()];
    toggle_required_option(&mut v, "pres");
    assert_eq!(v, vec!["pres".to_string()]);
    toggle_required_option(&mut v, "aor1");
    assert_eq!(v, vec!["pres".to_string(), "aor1".to_string()]);
    toggle_required_option(&mut v, "pres");
    assert_eq!(v, vec!["aor1".to_string()]);
}

#[test]
fn editor_start_state() {
    let d = default_init();
    assert_eq!(d.pos, "noun");
    assert_eq!(d.ptcp_genders, vec!["m".to_string(), "f".to_string(), "n".to_string()]);
    assert_eq!(d.cells.len(), 0);
    let lemmas = vec![lemma(5, "λύω", "verb", Some("развязывать"))];
    let mut f1 = form(50, 5, "λύω", "verb", None, Some("sg"));
    f1.tense_tag = Some("pres".into());
    f1.mood_tag = Some("ind".into());
    f1.voice_tag = Some("act".into());
    f1.person_tag = Some("1".into());
    let mut f2 = f1.clone();
    f2.id = 51;
    f2.tense_tag = Some("aor1".into());
    f2.greek_form = "ἔλυσα".into();
    let forms = vec![f1, f2];
    let s = compute_init_state(Some(5), &lemmas, &forms);
    assert_eq!(s.greek, "λύω");
    assert_eq!(s.translation, "развязывать");
    assert_eq!(s.pos, "verb");
    assert_eq!(s.verb_tenses, vec!["pres".to_string(), "aor1".to_string()]);
    assert_eq!(s.verb_moods, vec!["ind".to_string()]);
    assert_eq!(s.cells.get("verb:aor1:ind:act:1:sg").map(|s| s.as_str()), Some("ἔλυσα"));
    let none = compute_init_state(Some(9), &lemmas, &forms);
    assert_eq!(none.pos, "noun");
    assert!(compute_init_state(None, &lemmas, &forms).greek.is_empty());
}

#[test]
fn substring_and_order() {
    assert!(str_contains("ανθρωπος", "θρω"));
    assert!(str_contains("abc", ""));
    assert!(!str_contains("ab", "abc"));
    assert!(!str_contains("abc", "cb"));
    assert!(text_le("abc", "abd"));
    assert!(text_le("ab", "abc"));
    assert!(!text_le("b", "a"));
    assert!(text_le("", ""));
}

#[test]
fn searches() {
    let c = catalog();
    let found: Vec<i64> = build_search(&c.lemmas, "СЛОВ").iter().map(|l| l.id).collect();
    assert_eq!(found, vec![1]);
    assert_eq!(build_search(&c.lemmas, "").len(), 3);
    let listed: Vec<i64> = c.panel_lemmas(&vec![], "").iter().map(|l| l.id).collect();
    assert_eq!(listed, vec![2, 1]);
    let listed: Vec<i64> = c.panel_lemmas(&vec!["noun".to_string()], " ανθ ").iter().map(|l| l.id).collect();
    assert_eq!(listed, vec![2]);
    let listed: Vec<i64> = c.browser_lemmas("all", "λογ").iter().map(|l| l.id).collect();
    assert_eq!(listed, vec![1]);
    assert!(c.browser_lemmas("verb", "").is_empty());
}

#[test]
fn learning_list_candidates() {
    let c = catalog();
    let ids = |listed: Vec<i64>, q: &str| -> Vec<i64> { c.learning_lemmas(&listed, q).iter().map(|l| l.id).collect() };
    // Only lemmas with a paradigm, by accent-free headword.
    assert_eq!(ids(vec![], ""), vec![2, 1]);
    assert_eq!(ids(vec![], "   "), vec![2, 1]);
    // Those already on the list are left out.
    assert_eq!(ids(vec![2], ""), vec![1]);
    // The query matches the accent-free headword or a translation.
    assert_eq!(ids(vec![], " ΛΟΓ "), vec![1]);
    assert_eq!(ids(vec![], "ЧЕЛОВ"), vec![2]);
    assert!(ids(vec![], "и").is_empty());
    assert!(ids(vec![1, 2], "λογ").is_empty());
}

#[test]
fn word_picker_lists_at_most_thirty() {
    let lemmas: Vec<Lemma> = (0..40).map(|i| lemma(i, "λόγος", "noun", None)).collect();
    let found = build_search(&lemmas, "λ");
    assert_eq!(found.len(), 30);
    let ids: Vec<i64> = found.iter().map(|l| l.id).collect();
    assert_eq!(ids, (0..30).collect::<Vec<i64>>());
    assert!(build_search(&lemmas, "ω").is_empty());
}

#[test]
fn editor_drafts_save() {
    let mut c = catalog();
    let mut m = CellMap::new();
    m.insert("nom:sg".to_string(), "χώρα".to_string());
    m.insert("gen:sg".to_string(), "χώρας".to_string());
    let d = nominal_draft("χώρα".to_string(), "страна".to_string(), "noun".to_string(), String::new(), &m);
    assert!(d.gender.is_none());
    assert_eq!(d.entries.len(), 2);
    assert_eq!(c.add_custom_nominal_paradigm(d), Ok(()));
    assert_eq!(c.custom_forms.len(), 2);
    let mut v = CellMap::new();
    v.insert(verb_cell_key("pres", "ind", "act", "3", "sg"), "λύει".to_string());
    let d = verb_draft("λύω".to_string(), String::new(), &v);
    assert_eq!(d.entries.len(), 1);
    assert_eq!(c.add_custom_verb_paradigm(d), Ok(()));
    assert_eq!(c.custom_lemmas.len(), 2);
}

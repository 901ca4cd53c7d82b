use sfodra::diacritics::{
    compare_greek, diff_chars, is_accent_mark, is_combining, is_length_mark, levenshtein, normalize,
    remove_accents_and_length, remove_combining_marks, remove_length_marks, similarity_score,
    strip_leading_article, strip_only_accents,
};

#[test]
fn normalize_strips_accents_and_breathings() {
    assert_eq!(normalize("λόγος", true), "λογος");
    assert_eq!(normalize("ἄνθρωπος", true), "ανθρωπος");
    // Precomposed ά is decomposed before the marks are dropped.
    assert_eq!(normalize("\u{03AC}", true), "α");
}

#[test]
fn normalize_keeps_accents_when_asked() {
    // A decomposed acute is composed again.
    assert_eq!(normalize("α\u{0301}", false), "\u{03AC}");
    assert_eq!(normalize("λόγος", false), "λόγος");
}

#[test]
fn normalize_always_drops_length_marks() {
    assert_eq!(normalize("α\u{0304}", false), "α");
    assert_eq!(normalize("ι\u{0306}", false), "ι");
}

#[test]
fn compare_greek_ignoring_diacritics() {
    assert!(compare_greek("λογος", "λόγος", true));
    assert!(!compare_greek("λογος", "λόγος", false));
    assert!(compare_greek("λόγος", "λόγος", false));
    assert!(compare_greek("  λόγος ", "λόγος", false));
}

#[test]
fn compare_greek_is_case_insensitive() {
    assert!(compare_greek("ΛΟΓΟΣ", "λογος", true));
}

#[test]
fn compare_greek_article_is_optional() {
    assert!(compare_greek("λόγος", "ὁ λόγος", false));
    assert!(compare_greek("ὁ λόγος", "ὁ λόγος", false));
    assert!(!compare_greek("λόγοι", "ὁ λόγος", false));
}

#[test]
fn compare_greek_article_optional_for_capitalised_headword() {
    assert!(compare_greek("Ζεύς", "ὁ Ζεύς", false));
    assert!(compare_greek("ζευς", "ὁ Ζεύς", true));
    assert!(!compare_greek("ζευς", "ὁ Ζεύς", false));
}

#[test]
fn strip_article() {
    assert_eq!(strip_leading_article("ὁ λόγος"), "λόγος");
    assert_eq!(strip_leading_article("  τῆς   χώρας "), "χώρας");
    assert_eq!(strip_leading_article("τῆσδε"), "τῆσδε");
    assert_eq!(strip_leading_article("ὁ"), "ὁ");
    assert_eq!(strip_leading_article("λόγος"), "λόγος");
}

#[test]
fn levenshtein_values() {
    assert_eq!(levenshtein("kitten", "sitting"), 3);
    assert_eq!(levenshtein("", "abc"), 3);
    assert_eq!(levenshtein("abc", ""), 3);
    assert_eq!(levenshtein("λόγος", "λόγος"), 0);
    assert_eq!(levenshtein("λόγος", "λόγοι"), 1);
    assert_eq!(levenshtein("ab", "ba"), 2);
}

#[test]
fn levenshtein_is_symmetric_on_examples() {
    assert_eq!(levenshtein("flaw", "lawn"), levenshtein("lawn", "flaw"));
    assert_eq!(levenshtein("flaw", "lawn"), 2);
}

#[test]
fn similarity_separates_letters_from_breathings() {
    assert_eq!(similarity_score("λόγος", "λογός"), (0, 0));
    assert_eq!(similarity_score("ὁ", "ὀ"), (0, 1));
    assert_eq!(similarity_score("λόγος", "λόγος"), (0, 0));
    assert_eq!(similarity_score("λόγοι", "λόγος"), (1, 0));
}

#[test]
fn strip_only_accents_keeps_breathings() {
    assert_eq!(strip_only_accents("ἄνθρωπος"), "ἀνθρωπος");
    assert_eq!(strip_only_accents("ᾱ"), "α");
}

#[test]
fn mark_classes() {
    assert!(is_accent_mark('\u{0301}'));
    assert!(is_accent_mark('\u{0342}'));
    assert!(!is_accent_mark('\u{0313}'));
    assert!(is_length_mark('\u{0304}'));
    assert!(!is_length_mark('\u{0301}'));
    assert!(is_combining('\u{0313}'));
    assert!(is_combining('\u{1DC0}'));
    assert!(!is_combining('α'));
}

#[test]
fn diff_marks_each_character() {
    let d = diff_chars("λογοι", "λόγος", true);
    let marks: Vec<bool> = d.iter().map(|p| p.1).collect();
    assert_eq!(marks, vec![true, true, true, true, false]);
    let chars: String = d.iter().map(|p| p.0).collect();
    assert_eq!(chars, "λογοι");
}

#[test]
fn diff_of_longer_answer_marks_extra_wrong() {
    let d = diff_chars(" ab ", "a", false);
    assert_eq!(d, vec![('a', true), ('b', false)]);
}

#[test]
fn mark_filters_on_decomposed_text() {
    let v = vec!['\u{1F00}', 'α', '\u{0313}', '\u{0301}', '\u{0304}', 'ς'];
    assert_eq!(remove_length_marks(&v), vec!['\u{1F00}', 'α', '\u{0313}', '\u{0301}', 'ς']);
    assert_eq!(remove_combining_marks(&v), vec!['\u{1F00}', 'α', 'ς']);
    assert_eq!(remove_accents_and_length(&v), vec!['\u{1F00}', 'α', '\u{0313}', 'ς']);
}

//! Lemmas, word forms, categories and tag records, with the grammatical
//! descriptions shown to the learner.
use vstd::prelude::*;

use crate::diacritics::{strip_leading_article, without_leading_article};
use crate::text::{
    clone_opt_string, has_text, join_seqs, join_strs, opt_str_is, push_part, str_eq, str_views,
};

verus! {

/// A dictionary lemma.
#[derive(Debug, Clone, PartialEq)]
pub struct Lemma {
    pub id: i64,
    pub greek: String,
    pub latin: Option<String>,
    pub english: Option<String>,
    pub russian: Option<String>,
    pub part_of_speech: Option<String>,
    pub category_id: Option<i64>,
    pub lesson_kozar: Option<i32>,
    pub lesson_mast: Option<i32>,
    pub sort_order: i32,
}

/// The translation shown for a lemma: Russian, else English, else empty.
pub open spec fn translation_of(l: Lemma) -> Seq<char> {
    match l.russian {
        Some(r) => r@,
        None => match l.english {
            Some(e) => e@,
            None => Seq::empty(),
        },
    }
}

impl Lemma {
    pub fn display_translation(&self) -> (r: &str)
        ensures
            r@ == translation_of(*self),
    {
        match &self.russian {
            Some(r) => r.as_str(),
            None => match &self.english {
                Some(e) => e.as_str(),
                None => {
                    proof {
                        reveal_strlit("");
                    }
                    ""
                },
            },
        }
    }

    /// The headword as asked in drills: without its leading article.
    pub fn test_prompt_greek(&self) -> (r: String)
        ensures
            r@ == without_leading_article(self.greek@),
    {
        String::from_str(strip_leading_article(self.greek.as_str()))
    }

    /// A field-by-field copy.
    pub fn duplicate(&self) -> (r: Lemma)
        ensures
            r == *self,
    {
        Lemma {
            id: self.id,
            greek: self.greek.clone(),
            latin: clone_opt_string(&self.latin),
            english: clone_opt_string(&self.english),
            russian: clone_opt_string(&self.russian),
            part_of_speech: clone_opt_string(&self.part_of_speech),
            category_id: self.category_id,
            lesson_kozar: self.lesson_kozar,
            lesson_mast: self.lesson_mast,
            sort_order: self.sort_order,
        }
    }
}

/// One grammatical form of a lemma.
#[derive(Debug, Clone)]
pub struct Form {
    pub id: i64,
    pub lemma_id: i64,
    pub greek_form: String,
    pub transliteration: Option<String>,
    pub category_id: Option<i64>,
    pub pos: Option<String>,
    pub case_tag: Option<String>,
    pub number_tag: Option<String>,
    pub gender_tag: Option<String>,
    pub tense_tag: Option<String>,
    pub voice_tag: Option<String>,
    pub mood_tag: Option<String>,
    pub person_tag: Option<String>,
    pub degree_tag: Option<String>,
    pub decl_type: Option<String>,
    pub conj_type: Option<String>,
    pub adj_class: Option<String>,
    pub part_type: Option<String>,
    pub num_type: Option<String>,
    pub pron_type: Option<String>,
    pub lesson_kozar: Option<i32>,
    pub lesson_mast: Option<i32>,
    pub paradigm_row: Option<i32>,
    pub sort_order: i32,
    pub notes: Option<String>,
}

/// A noun-like form that has a cell in a case × number table.
pub open spec fn nominal_paradigm_form(f: Form) -> bool {
    (has_text(f.pos, "noun"@) || has_text(f.pos, "adj"@) || has_text(f.pos, "pronoun"@)
        || has_text(f.pos, "article"@) || has_text(f.pos, "participle"@)) && f.case_tag is Some
        && f.number_tag is Some
}

/// A finite verb form that has a cell in a person × number table.
pub open spec fn verb_paradigm_form(f: Form) -> bool {
    has_text(f.pos, "verb"@) && f.person_tag is Some && f.number_tag is Some && f.tense_tag is Some
        && f.voice_tag is Some
}

/// A form that belongs in some paradigm table.
pub open spec fn paradigm_form(f: Form) -> bool {
    nominal_paradigm_form(f) || verb_paradigm_form(f)
}

/// A participle whose tense and voice live in `part_type` only.
pub open spec fn encoded_participle(f: Form) -> bool {
    (has_text(f.mood_tag, "part"@) || has_text(f.pos, "participle"@)) && f.tense_tag is None
        && f.voice_tag is None
}

pub open spec fn push_label(
    p: Seq<Seq<char>>,
    o: Option<String>,
    label: spec_fn(Seq<char>) -> Seq<char>,
) -> Seq<Seq<char>> {
    match o {
        Some(v) => p.push(label(v@)),
        None => p,
    }
}

/// The leading parts of the Russian description: tense and voice, read
/// from `part_type` for participles that only carry that.
pub open spec fn grammar_head_ru(f: Form) -> Seq<Seq<char>> {
    if encoded_participle(f) {
        match f.part_type {
            Some(pt) => {
                let tl = part_type_label_ru_of(pt@).0;
                let vl = part_type_label_ru_of(pt@).1;
                if vl.len() > 0 {
                    seq![tl, vl]
                } else {
                    seq![tl]
                }
            },
            None => Seq::empty(),
        }
    } else {
        push_label(
            push_label(Seq::empty(), f.tense_tag, |s: Seq<char>| tense_ru_of(s)),
            f.voice_tag,
            |s: Seq<char>| voice_ru_of(s),
        )
    }
}

/// The parts of the Russian grammatical description, in display order.
pub open spec fn grammar_parts_ru(f: Form) -> Seq<Seq<char>> {
    let p0 = grammar_head_ru(f);
    let p1 = push_label(p0, f.mood_tag, |s: Seq<char>| mood_ru_of(s));
    let p2 = push_label(p1, f.person_tag, |s: Seq<char>| person_ru_of(s));
    let p3 = push_label(p2, f.number_tag, |s: Seq<char>| number_ru_of(s));
    let p4 = push_label(p3, f.case_tag, |s: Seq<char>| case_ru_of(s));
    let p5 = push_label(p4, f.gender_tag, |s: Seq<char>| gender_ru_of(s));
    push_label(p5, f.degree_tag, |s: Seq<char>| degree_ru_of(s))
}

/// The first parts of the English description: tense, voice, mood, person.
pub open spec fn grammar_head_en(f: Form) -> Seq<Seq<char>> {
    let p0 = push_label(Seq::empty(), f.tense_tag, |s: Seq<char>| tense_en_of(s));
    let p1 = push_label(p0, f.voice_tag, |s: Seq<char>| voice_en_of(s));
    let p2 = push_label(p1, f.mood_tag, |s: Seq<char>| mood_en_of(s));
    push_label(p2, f.person_tag, |s: Seq<char>| person_en_of(s))
}

/// The parts of the English grammatical description, in display order.
pub open spec fn grammar_parts_en(f: Form) -> Seq<Seq<char>> {
    let p3 = grammar_head_en(f);
    let p4 = push_label(p3, f.number_tag, |s: Seq<char>| number_en_of(s));
    let p5 = push_label(p4, f.case_tag, |s: Seq<char>| case_en_of(s));
    let p6 = push_label(p5, f.gender_tag, |s: Seq<char>| gender_en_of(s));
    push_label(p6, f.degree_tag, |s: Seq<char>| degree_en_of(s))
}

/// The separator between the parts of a grammatical description.
pub open spec fn label_separator() -> Seq<char> {
    " · "@
}

impl Form {
    /// The form as asked in drills: without its leading article.
    pub fn test_prompt_greek(&self) -> (r: String)
        ensures
            r@ == without_leading_article(self.greek_form@),
    {
        String::from_str(strip_leading_article(self.greek_form.as_str()))
    }

    pub fn is_nominal_paradigm_form(&self) -> (r: bool)
        ensures
            r == nominal_paradigm_form(*self),
    {
        (opt_str_is(&self.pos, "noun") || opt_str_is(&self.pos, "adj") || opt_str_is(
            &self.pos,
            "pronoun",
        ) || opt_str_is(&self.pos, "article") || opt_str_is(&self.pos, "participle"))
            && self.case_tag.is_some() && self.number_tag.is_some()
    }

    pub fn is_verb_paradigm_form(&self) -> (r: bool)
        ensures
            r == verb_paradigm_form(*self),
    {
        opt_str_is(&self.pos, "verb") && self.person_tag.is_some() && self.number_tag.is_some()
            && self.tense_tag.is_some() && self.voice_tag.is_some()
    }

    pub fn is_paradigm_form(&self) -> (r: bool)
        ensures
            r == paradigm_form(*self),
    {
        self.is_nominal_paradigm_form() || self.is_verb_paradigm_form()
    }

    fn push_head_ru<'a>(&'a self, parts: &mut Vec<&'a str>)
        requires
            old(parts)@.len() == 0,
        ensures
            str_views(final(parts)@) == grammar_head_ru(*self),
    {
        assert(str_views(parts@) =~= Seq::<Seq<char>>::empty());
        let is_ptcp = opt_str_is(&self.mood_tag, "part") || opt_str_is(&self.pos, "participle");
        if is_ptcp && self.tense_tag.is_none() && self.voice_tag.is_none() {
            if let Some(pt) = &self.part_type {
                let (tl, vl) = part_type_label_ru(pt.as_str());
                push_part(parts, tl);
                if !vl.is_empty() {
                    push_part(parts, vl);
                }
            }
        } else {
            if let Some(t) = &self.tense_tag {
                push_part(parts, tense_ru(t.as_str()));
            }
            if let Some(v) = &self.voice_tag {
                push_part(parts, voice_ru(v.as_str()));
            }
        }
    }

    /// Human-readable grammatical description in Russian.
    pub fn grammar_label_ru(&self) -> (r: String)
        ensures
            r@ == join_seqs(grammar_parts_ru(*self), label_separator()),
    {
        let mut parts: Vec<&str> = Vec::new();
        self.push_head_ru(&mut parts);
        if let Some(m) = &self.mood_tag {
            push_part(&mut parts, mood_ru(m.as_str()));
        }
        if let Some(p) = &self.person_tag {
            push_part(&mut parts, person_ru(p.as_str()));
        }
        if let Some(n) = &self.number_tag {
            push_part(&mut parts, number_ru(n.as_str()));
        }
        if let Some(c) = &self.case_tag {
            push_part(&mut parts, case_ru(c.as_str()));
        }
        if let Some(g) = &self.gender_tag {
            push_part(&mut parts, gender_ru(g.as_str()));
        }
        if let Some(d) = &self.degree_tag {
            push_part(&mut parts, degree_ru(d.as_str()));
        }
        assert(str_views(parts@) =~= grammar_parts_ru(*self));
        join_strs(&parts, " · ")
    }

    fn push_head_en<'a>(&'a self, parts: &mut Vec<&'a str>)
        requires
            old(parts)@.len() == 0,
        ensures
            str_views(final(parts)@) == grammar_head_en(*self),
    {
        assert(str_views(parts@) =~= Seq::<Seq<char>>::empty());
        if let Some(t) = &self.tense_tag {
            push_part(parts, tense_en(t.as_str()));
        }
        if let Some(v) = &self.voice_tag {
            push_part(parts, voice_en(v.as_str()));
        }
        if let Some(m) = &self.mood_tag {
            push_part(parts, mood_en(m.as_str()));
        }
        if let Some(p) = &self.person_tag {
            push_part(parts, person_en(p.as_str()));
        }
    }

    /// Human-readable grammatical description in English.
    pub fn grammar_label_en(&self) -> (r: String)
        ensures
            r@ == join_seqs(grammar_parts_en(*self), label_separator()),
    {
        let mut parts: Vec<&str> = Vec::new();
        self.push_head_en(&mut parts);
        if let Some(n) = &self.number_tag {
            push_part(&mut parts, number_en(n.as_str()));
        }
        if let Some(c) = &self.case_tag {
            push_part(&mut parts, case_en(c.as_str()));
        }
        if let Some(g) = &self.gender_tag {
            push_part(&mut parts, gender_en(g.as_str()));
        }
        if let Some(d) = &self.degree_tag {
            push_part(&mut parts, degree_en(d.as_str()));
        }
        assert(str_views(parts@) =~= grammar_parts_en(*self));
        join_strs(&parts, " · ")
    }

    /// A field-by-field copy.
    pub fn duplicate(&self) -> (r: Form)
        ensures
            r == *self,
    {
        Form {
            id: self.id,
            lemma_id: self.lemma_id,
            greek_form: self.greek_form.clone(),
            transliteration: clone_opt_string(&self.transliteration),
            category_id: self.category_id,
            pos: clone_opt_string(&self.pos),
            case_tag: clone_opt_string(&self.case_tag),
            number_tag: clone_opt_string(&self.number_tag),
            gender_tag: clone_opt_string(&self.gender_tag),
            tense_tag: clone_opt_string(&self.tense_tag),
            voice_tag: clone_opt_string(&self.voice_tag),
            mood_tag: clone_opt_string(&self.mood_tag),
            person_tag: clone_opt_string(&self.person_tag),
            degree_tag: clone_opt_string(&self.degree_tag),
            decl_type: clone_opt_string(&self.decl_type),
            conj_type: clone_opt_string(&self.conj_type),
            adj_class: clone_opt_string(&self.adj_class),
            part_type: clone_opt_string(&self.part_type),
            num_type: clone_opt_string(&self.num_type),
            pron_type: clone_opt_string(&self.pron_type),
            lesson_kozar: self.lesson_kozar,
            lesson_mast: self.lesson_mast,
            paradigm_row: self.paradigm_row,
            sort_order: self.sort_order,
            notes: clone_opt_string(&self.notes),
        }
    }
}

/// A node of the category tree.
#[derive(Debug)]
pub struct Category {
    pub id: i64,
    pub parent_id: Option<i64>,
    pub code: Option<String>,
    pub name_ru: String,
    pub name_en: String,
    pub name_gr: Option<String>,
    pub depth: i32,
    pub sort_order: i32,
    pub description: Option<String>,
    pub children: Vec<Category>,
}

impl Category {
    pub fn name(&self, lang_ru: bool) -> (r: &str)
        ensures
            r@ == if lang_ru {
                self.name_ru@
            } else {
                self.name_en@
            },
    {
        if lang_ru {
            self.name_ru.as_str()
        } else {
            self.name_en.as_str()
        }
    }
}

/// A row of the tag lookup table.
#[derive(Debug, Clone)]
pub struct Tag {
    pub id: i64,
    pub group_name: String,
    pub tag_value: String,
    pub label_ru: Option<String>,
    pub label_en: Option<String>,
    pub sort_order: i32,
}

// ── Label tables ───────────────────────────────────────────────────────────

/// Russian label of a tense tag; other tags read as themselves.
pub open spec fn tense_ru_of(s: Seq<char>) -> Seq<char> {
    if s == "pres"@ {
        "Наст."@
    } else if s == "imperf"@ {
        "Импф."@
    } else if s == "fut"@ {
        "Буд."@
    } else if s == "aor1"@ {
        "Аор. I"@
    } else if s == "aor2"@ {
        "Аор. II"@
    } else if s == "aor_pass"@ {
        "Аор. пас."@
    } else if s == "perf"@ {
        "Перф."@
    } else if s == "pluperf"@ {
        "Плюскв."@
    } else if s == "futperf"@ {
        "Буд. перф."@
    } else {
        s
    }
}

fn tense_ru(s: &str) -> (r: &str)
    ensures
        r@ == tense_ru_of(s@),
{
    if str_eq(s, "pres") {
        "Наст."
    } else if str_eq(s, "imperf") {
        "Импф."
    } else if str_eq(s, "fut") {
        "Буд."
    } else if str_eq(s, "aor1") {
        "Аор. I"
    } else if str_eq(s, "aor2") {
        "Аор. II"
    } else if str_eq(s, "aor_pass") {
        "Аор. пас."
    } else if str_eq(s, "perf") {
        "Перф."
    } else if str_eq(s, "pluperf") {
        "Плюскв."
    } else if str_eq(s, "futperf") {
        "Буд. перф."
    } else {
        s
    }
}

/// Russian label of a voice tag; other tags read as themselves.
pub open spec fn voice_ru_of(s: Seq<char>) -> Seq<char> {
    if s == "act"@ {
        "Акт."@
    } else if s == "mid"@ {
        "Мед."@
    } else if s == "pass"@ {
        "Пас."@
    } else if s == "mid_pass"@ {
        "Мед./Пас."@
    } else {
        s
    }
}

fn voice_ru(s: &str) -> (r: &str)
    ensures
        r@ == voice_ru_of(s@),
{
    if str_eq(s, "act") {
        "Акт."
    } else if str_eq(s, "mid") {
        "Мед."
    } else if str_eq(s, "pass") {
        "Пас."
    } else if str_eq(s, "mid_pass") {
        "Мед./Пас."
    } else {
        s
    }
}

/// Russian label of a mood tag; other tags read as themselves.
pub open spec fn mood_ru_of(s: Seq<char>) -> Seq<char> {
    if s == "ind"@ {
        "Изъяв."@
    } else if s == "subj"@ {
        "Сослаг."@
    } else if s == "opt"@ {
        "Жел."@
    } else if s == "imp"@ {
        "Повел."@
    } else if s == "inf"@ {
        "Инфин."@
    } else if s == "part"@ {
        "Прич."@
    } else {
        s
    }
}

fn mood_ru(s: &str) -> (r: &str)
    ensures
        r@ == mood_ru_of(s@),
{
    if str_eq(s, "ind") {
        "Изъяв."
    } else if str_eq(s, "subj") {
        "Сослаг."
    } else if str_eq(s, "opt") {
        "Жел."
    } else if str_eq(s, "imp") {
        "Повел."
    } else if str_eq(s, "inf") {
        "Инфин."
    } else if str_eq(s, "part") {
        "Прич."
    } else {
        s
    }
}

/// Russian label of a person tag; other tags read as themselves.
pub open spec fn person_ru_of(s: Seq<char>) -> Seq<char> {
    if s == "1"@ {
        "1-е л."@
    } else if s == "2"@ {
        "2-е л."@
    } else if s == "3"@ {
        "3-е л."@
    } else {
        s
    }
}

fn person_ru(s: &str) -> (r: &str)
    ensures
        r@ == person_ru_of(s@),
{
    if str_eq(s, "1") {
        "1-е л."
    } else if str_eq(s, "2") {
        "2-е л."
    } else if str_eq(s, "3") {
        "3-е л."
    } else {
        s
    }
}

/// Russian label of a number tag; other tags read as themselves.
pub open spec fn number_ru_of(s: Seq<char>) -> Seq<char> {
    if s == "sg"@ {
        "Ед.ч."@
    } else if s == "du"@ {
        "Дв.ч."@
    } else if s == "pl"@ {
        "Мн.ч."@
    } else {
        s
    }
}

fn number_ru(s: &str) -> (r: &str)
    ensures
        r@ == number_ru_of(s@),
{
    if str_eq(s, "sg") {
        "Ед.ч."
    } else if str_eq(s, "du") {
        "Дв.ч."
    } else if str_eq(s, "pl") {
        "Мн.ч."
    } else {
        s
    }
}

/// Russian label of a case tag; other tags read as themselves.
pub open spec fn case_ru_of(s: Seq<char>) -> Seq<char> {
    if s == "nom"@ {
        "Именит."@
    } else if s == "gen"@ {
        "Родит."@
    } else if s == "dat"@ {
        "Датель."@
    } else if s == "acc"@ {
        "Винит."@
    } else if s == "voc"@ {
        "Звател."@
    } else {
        s
    }
}

fn case_ru(s: &str) -> (r: &str)
    ensures
        r@ == case_ru_of(s@),
{
    if str_eq(s, "nom") {
        "Именит."
    } else if str_eq(s, "gen") {
        "Родит."
    } else if str_eq(s, "dat") {
        "Датель."
    } else if str_eq(s, "acc") {
        "Винит."
    } else if str_eq(s, "voc") {
        "Звател."
    } else {
        s
    }
}

/// Russian label of a gender tag; other tags read as themselves.
pub open spec fn gender_ru_of(s: Seq<char>) -> Seq<char> {
    if s == "m"@ {
        "М.р."@
    } else if s == "f"@ {
        "Ж.р."@
    } else if s == "n"@ {
        "С.р."@
    } else {
        s
    }
}

fn gender_ru(s: &str) -> (r: &str)
    ensures
        r@ == gender_ru_of(s@),
{
    if str_eq(s, "m") {
        "М.р."
    } else if str_eq(s, "f") {
        "Ж.р."
    } else if str_eq(s, "n") {
        "С.р."
    } else {
        s
    }
}

/// Russian label of a degree tag; other tags read as themselves.
pub open spec fn degree_ru_of(s: Seq<char>) -> Seq<char> {
    if s == "pos"@ {
        "Полож."@
    } else if s == "comp"@ {
        "Сравн."@
    } else if s == "superl"@ {
        "Превосх."@
    } else {
        s
    }
}

fn degree_ru(s: &str) -> (r: &str)
    ensures
        r@ == degree_ru_of(s@),
{
    if str_eq(s, "pos") {
        "Полож."
    } else if str_eq(s, "comp") {
        "Сравн."
    } else if str_eq(s, "superl") {
        "Превосх."
    } else {
        s
    }
}

/// English label of a tense tag; other tags read as themselves.
pub open spec fn tense_en_of(s: Seq<char>) -> Seq<char> {
    if s == "pres"@ {
        "Pres"@
    } else if s == "imperf"@ {
        "Impf"@
    } else if s == "fut"@ {
        "Fut"@
    } else if s == "aor1"@ {
        "Aor I"@
    } else if s == "aor2"@ {
        "Aor II"@
    } else if s == "aor_pass"@ {
        "Aor Pass"@
    } else if s == "perf"@ {
        "Perf"@
    } else if s == "pluperf"@ {
        "Plupf"@
    } else if s == "futperf"@ {
        "Fut Pf"@
    } else {
        s
    }
}

fn tense_en(s: &str) -> (r: &str)
    ensures
        r@ == tense_en_of(s@),
{
    if str_eq(s, "pres") {
        "Pres"
    } else if str_eq(s, "imperf") {
        "Impf"
    } else if str_eq(s, "fut") {
        "Fut"
    } else if str_eq(s, "aor1") {
        "Aor I"
    } else if str_eq(s, "aor2") {
        "Aor II"
    } else if str_eq(s, "aor_pass") {
        "Aor Pass"
    } else if str_eq(s, "perf") {
        "Perf"
    } else if str_eq(s, "pluperf") {
        "Plupf"
    } else if str_eq(s, "futperf") {
        "Fut Pf"
    } else {
        s
    }
}

/// English label of a voice tag; other tags read as themselves.
pub open spec fn voice_en_of(s: Seq<char>) -> Seq<char> {
    if s == "act"@ {
        "Act"@
    } else if s == "mid"@ {
        "Mid"@
    } else if s == "pass"@ {
        "Pass"@
    } else if s == "mid_pass"@ {
        "Mid/Pass"@
    } else {
        s
    }
}

fn voice_en(s: &str) -> (r: &str)
    ensures
        r@ == voice_en_of(s@),
{
    if str_eq(s, "act") {
        "Act"
    } else if str_eq(s, "mid") {
        "Mid"
    } else if str_eq(s, "pass") {
        "Pass"
    } else if str_eq(s, "mid_pass") {
        "Mid/Pass"
    } else {
        s
    }
}

/// English label of a mood tag; other tags read as themselves.
pub open spec fn mood_en_of(s: Seq<char>) -> Seq<char> {
    if s == "ind"@ {
        "Ind"@
    } else if s == "subj"@ {
        "Subj"@
    } else if s == "opt"@ {
        "Opt"@
    } else if s == "imp"@ {
        "Imp"@
    } else if s == "inf"@ {
        "Inf"@
    } else if s == "part"@ {
        "Part"@
    } else {
        s
    }
}

fn mood_en(s: &str) -> (r: &str)
    ensures
        r@ == mood_en_of(s@),
{
    if str_eq(s, "ind") {
        "Ind"
    } else if str_eq(s, "subj") {
        "Subj"
    } else if str_eq(s, "opt") {
        "Opt"
    } else if str_eq(s, "imp") {
        "Imp"
    } else if str_eq(s, "inf") {
        "Inf"
    } else if str_eq(s, "part") {
        "Part"
    } else {
        s
    }
}

/// English label of a person tag; other tags read as themselves.
pub open spec fn person_en_of(s: Seq<char>) -> Seq<char> {
    if s == "1"@ {
        "1st"@
    } else if s == "2"@ {
        "2nd"@
    } else if s == "3"@ {
        "3rd"@
    } else {
        s
    }
}

fn person_en(s: &str) -> (r: &str)
    ensures
        r@ == person_en_of(s@),
{
    if str_eq(s, "1") {
        "1st"
    } else if str_eq(s, "2") {
        "2nd"
    } else if str_eq(s, "3") {
        "3rd"
    } else {
        s
    }
}

/// English label of a number tag; other tags read as themselves.
pub open spec fn number_en_of(s: Seq<char>) -> Seq<char> {
    if s == "sg"@ {
        "Sg"@
    } else if s == "du"@ {
        "Du"@
    } else if s == "pl"@ {
        "Pl"@
    } else {
        s
    }
}

fn number_en(s: &str) -> (r: &str)
    ensures
        r@ == number_en_of(s@),
{
    if str_eq(s, "sg") {
        "Sg"
    } else if str_eq(s, "du") {
        "Du"
    } else if str_eq(s, "pl") {
        "Pl"
    } else {
        s
    }
}

/// English label of a case tag; other tags read as themselves.
pub open spec fn case_en_of(s: Seq<char>) -> Seq<char> {
    if s == "nom"@ {
        "Nom"@
    } else if s == "gen"@ {
        "Gen"@
    } else if s == "dat"@ {
        "Dat"@
    } else if s == "acc"@ {
        "Acc"@
    } else if s == "voc"@ {
        "Voc"@
    } else {
        s
    }
}

fn case_en(s: &str) -> (r: &str)
    ensures
        r@ == case_en_of(s@),
{
    if str_eq(s, "nom") {
        "Nom"
    } else if str_eq(s, "gen") {
        "Gen"
    } else if str_eq(s, "dat") {
        "Dat"
    } else if str_eq(s, "acc") {
        "Acc"
    } else if str_eq(s, "voc") {
        "Voc"
    } else {
        s
    }
}

/// English label of a gender tag; other tags read as themselves.
pub open spec fn gender_en_of(s: Seq<char>) -> Seq<char> {
    if s == "m"@ {
        "M"@
    } else if s == "f"@ {
        "F"@
    } else if s == "n"@ {
        "N"@
    } else {
        s
    }
}

fn gender_en(s: &str) -> (r: &str)
    ensures
        r@ == gender_en_of(s@),
{
    if str_eq(s, "m") {
        "M"
    } else if str_eq(s, "f") {
        "F"
    } else if str_eq(s, "n") {
        "N"
    } else {
        s
    }
}

/// English label of a degree tag; other tags read as themselves.
pub open spec fn degree_en_of(s: Seq<char>) -> Seq<char> {
    if s == "pos"@ {
        "Pos"@
    } else if s == "comp"@ {
        "Comp"@
    } else if s == "superl"@ {
        "Superl"@
    } else {
        s
    }
}

fn degree_en(s: &str) -> (r: &str)
    ensures
        r@ == degree_en_of(s@),
{
    if str_eq(s, "pos") {
        "Pos"
    } else if str_eq(s, "comp") {
        "Comp"
    } else if str_eq(s, "superl") {
        "Superl"
    } else {
        s
    }
}

/// Russian (tense, voice) labels of a participle `part_type` such as
/// `pres_act` or `aor1_pass`.
pub open spec fn part_type_label_ru_of(s: Seq<char>) -> (Seq<char>, Seq<char>) {
    if s == "pres_act"@ {
        ("Наст."@, "акт."@)
    } else if s == "pres_mid"@ {
        ("Наст."@, "мед."@)
    } else if s == "pres_pass"@ {
        ("Наст."@, "пас."@)
    } else if s == "pres_mid_pass"@ {
        ("Наст."@, "мед./пас."@)
    } else if s == "imperf_act"@ {
        ("Импф."@, "акт."@)
    } else if s == "aor1_act"@ {
        ("Аор. I"@, "акт."@)
    } else if s == "aor1_mid"@ {
        ("Аор. I"@, "мед."@)
    } else if s == "aor1_pass"@ {
        ("Аор. I"@, "пас."@)
    } else if s == "aor2_act"@ {
        ("Аор. II"@, "акт."@)
    } else if s == "aor2_mid"@ {
        ("Аор. II"@, "мед."@)
    } else if s == "aor2_pass"@ {
        ("Аор. II"@, "пас."@)
    } else if s == "aor_pass"@ {
        ("Аор."@, "пас."@)
    } else if s == "perf_act"@ {
        ("Перф."@, "акт."@)
    } else if s == "perf_mid_pass"@ {
        ("Перф."@, "мед./пас."@)
    } else if s == "fut_act"@ {
        ("Буд."@, "акт."@)
    } else if s == "fut_mid"@ {
        ("Буд."@, "мед."@)
    } else if s == "fut_pass"@ {
        ("Буд."@, "пас."@)
    } else {
        ("причастие"@, ""@)
    }
}

fn part_type_label_ru(s: &str) -> (r: (&'static str, &'static str))
    ensures
        r.0@ == part_type_label_ru_of(s@).0,
        r.1@ == part_type_label_ru_of(s@).1,
{
    if str_eq(s, "pres_act") {
        ("Наст.", "акт.")
    } else if str_eq(s, "pres_mid") {
        ("Наст.", "мед.")
    } else if str_eq(s, "pres_pass") {
        ("Наст.", "пас.")
    } else if str_eq(s, "pres_mid_pass") {
        ("Наст.", "мед./пас.")
    } else if str_eq(s, "imperf_act") {
        ("Импф.", "акт.")
    } else if str_eq(s, "aor1_act") {
        ("Аор. I", "акт.")
    } else if str_eq(s, "aor1_mid") {
        ("Аор. I", "мед.")
    } else if str_eq(s, "aor1_pass") {
        ("Аор. I", "пас.")
    } else if str_eq(s, "aor2_act") {
        ("Аор. II", "акт.")
    } else if str_eq(s, "aor2_mid") {
        ("Аор. II", "мед.")
    } else if str_eq(s, "aor2_pass") {
        ("Аор. II", "пас.")
    } else if str_eq(s, "aor_pass") {
        ("Аор.", "пас.")
    } else if str_eq(s, "perf_act") {
        ("Перф.", "акт.")
    } else if str_eq(s, "perf_mid_pass") {
        ("Перф.", "мед./пас.")
    } else if str_eq(s, "fut_act") {
        ("Буд.", "акт.")
    } else if str_eq(s, "fut_mid") {
        ("Буд.", "мед.")
    } else if str_eq(s, "fut_pass") {
        ("Буд.", "пас.")
    } else {
        ("причастие", "")
    }
}

} // verus!

//! The grammatical tag vocabulary: parts of speech, cases, numbers, genders,
//! tenses, voices, moods, persons, degrees, declension and conjugation types,
//! with their labels and database spellings.
use vstd::prelude::*;

use crate::text::str_eq;

verus! {

/// Part of speech of a lemma or form.
#[derive(Debug, Clone, Copy, PartialEq, Eq, Hash, Structural)]
pub enum Pos {
    Noun,
    Verb,
    Adj,
    Pronoun,
    Article,
    Num,
    Participle,
    Letter,
    Term,
    Other,
}

pub open spec fn pos_all() -> Seq<Seq<char>> {
    seq!["noun"@, "verb"@, "adj"@, "pronoun"@, "article"@, "num"@, "participle"@, "letter"@, "term"@]
}

pub open spec fn pos_label_ru(x: Pos) -> Seq<char> {
    match x {
        Pos::Noun => "Существительное"@,
        Pos::Verb => "Глагол"@,
        Pos::Adj => "Прилагательное"@,
        Pos::Pronoun => "Местоимение"@,
        Pos::Article => "Артикль"@,
        Pos::Num => "Числительное"@,
        Pos::Participle => "Причастие"@,
        Pos::Letter => "Буква"@,
        Pos::Term => "Термин"@,
        Pos::Other => "Другое"@,
    }
}

pub open spec fn pos_label_en(x: Pos) -> Seq<char> {
    match x {
        Pos::Noun => "Noun"@,
        Pos::Verb => "Verb"@,
        Pos::Adj => "Adjective"@,
        Pos::Pronoun => "Pronoun"@,
        Pos::Article => "Article"@,
        Pos::Num => "Numeral"@,
        Pos::Participle => "Participle"@,
        Pos::Letter => "Letter"@,
        Pos::Term => "Term"@,
        Pos::Other => "Other"@,
    }
}

pub open spec fn pos_from_str(s: Seq<char>) -> Pos {
    if s == "noun"@ {
        Pos::Noun
    } else if s == "verb"@ {
        Pos::Verb
    } else if s == "adj"@ {
        Pos::Adj
    } else if s == "pronoun"@ {
        Pos::Pronoun
    } else if s == "article"@ {
        Pos::Article
    } else if s == "num"@ {
        Pos::Num
    } else if s == "participle"@ {
        Pos::Participle
    } else if s == "letter"@ {
        Pos::Letter
    } else if s == "term"@ {
        Pos::Term
    } else {
        Pos::Other
    }
}

pub open spec fn pos_to_db(x: Pos) -> Seq<char> {
    match x {
        Pos::Noun => "noun"@,
        Pos::Verb => "verb"@,
        Pos::Adj => "adj"@,
        Pos::Pronoun => "pronoun"@,
        Pos::Article => "article"@,
        Pos::Num => "num"@,
        Pos::Participle => "participle"@,
        Pos::Letter => "letter"@,
        Pos::Term => "term"@,
        Pos::Other => ""@,
    }
}

impl Pos {
    pub fn all() -> (r: &'static [&'static str])
        ensures
            r@.len() == pos_all().len(),
            forall|i: int| 0 <= i < r@.len() ==> #[trigger] r@[i]@ == pos_all()[i],
    {
        &["noun", "verb", "adj", "pronoun", "article", "num", "participle", "letter", "term"]
    }

    pub fn label_ru(&self) -> (r: &'static str)
        ensures
            r@ == pos_label_ru(*self),
    {
        match self {
            Pos::Noun => "Существительное",
            Pos::Verb => "Глагол",
            Pos::Adj => "Прилагательное",
            Pos::Pronoun => "Местоимение",
            Pos::Article => "Артикль",
            Pos::Num => "Числительное",
            Pos::Participle => "Причастие",
            Pos::Letter => "Буква",
            Pos::Term => "Термин",
            Pos::Other => "Другое",
        }
    }

    pub fn label_en(&self) -> (r: &'static str)
        ensures
            r@ == pos_label_en(*self),
    {
        match self {
            Pos::Noun => "Noun",
            Pos::Verb => "Verb",
            Pos::Adj => "Adjective",
            Pos::Pronoun => "Pronoun",
            Pos::Article => "Article",
            Pos::Num => "Numeral",
            Pos::Participle => "Participle",
            Pos::Letter => "Letter",
            Pos::Term => "Term",
            Pos::Other => "Other",
        }
    }

    pub fn from_str(s: &str) -> (r: Pos)
        ensures
            r == pos_from_str(s@),
    {
        if str_eq(s, "noun") {
            Pos::Noun
        } else if str_eq(s, "verb") {
            Pos::Verb
        } else if str_eq(s, "adj") {
            Pos::Adj
        } else if str_eq(s, "pronoun") {
            Pos::Pronoun
        } else if str_eq(s, "article") {
            Pos::Article
        } else if str_eq(s, "num") {
            Pos::Num
        } else if str_eq(s, "participle") {
            Pos::Participle
        } else if str_eq(s, "letter") {
            Pos::Letter
        } else if str_eq(s, "term") {
            Pos::Term
        } else {
            Pos::Other
        }
    }

    pub fn to_db(&self) -> (r: &'static str)
        ensures
            r@ == pos_to_db(*self),
    {
        match self {
            Pos::Noun => "noun",
            Pos::Verb => "verb",
            Pos::Adj => "adj",
            Pos::Pronoun => "pronoun",
            Pos::Article => "article",
            Pos::Num => "num",
            Pos::Participle => "participle",
            Pos::Letter => "letter",
            Pos::Term => "term",
            Pos::Other => "",
        }
    }
}

/// Reading back the database spelling of a pos gives the same pos.
pub proof fn lemma_pos_db_round_trip(x: Pos)
    ensures
        pos_from_str(pos_to_db(x)) == x,
{
    reveal_strlit("");
    reveal_strlit("adj");
    reveal_strlit("article");
    reveal_strlit("letter");
    reveal_strlit("noun");
    reveal_strlit("num");
    reveal_strlit("participle");
    reveal_strlit("pronoun");
    reveal_strlit("term");
    reveal_strlit("verb");
    assert("noun"@[0] != "verb"@[0]);
    assert("noun"@.len() != "adj"@.len());
    assert("noun"@.len() != "pronoun"@.len());
    assert("noun"@.len() != "article"@.len());
    assert("noun"@.len() != "num"@.len());
    assert("noun"@.len() != "participle"@.len());
    assert("noun"@.len() != "letter"@.len());
    assert("noun"@[0] != "term"@[0]);
    assert("verb"@[0] != "noun"@[0]);
    assert("verb"@.len() != "adj"@.len());
    assert("verb"@.len() != "pronoun"@.len());
    assert("verb"@.len() != "article"@.len());
    assert("verb"@.len() != "num"@.len());
    assert("verb"@.len() != "participle"@.len());
    assert("verb"@.len() != "letter"@.len());
    assert("verb"@[0] != "term"@[0]);
    assert("adj"@.len() != "noun"@.len());
    assert("adj"@.len() != "verb"@.len());
    assert("adj"@.len() != "pronoun"@.len());
    assert("adj"@.len() != "article"@.len());
    assert("adj"@[0] != "num"@[0]);
    assert("adj"@.len() != "participle"@.len());
    assert("adj"@.len() != "letter"@.len());
    assert("adj"@.len() != "term"@.len());
    assert("pronoun"@.len() != "noun"@.len());
    assert("pronoun"@.len() != "verb"@.len());
    assert("pronoun"@.len() != "adj"@.len());
    assert("pronoun"@[0] != "article"@[0]);
    assert("pronoun"@.len() != "num"@.len());
    assert("pronoun"@.len() != "participle"@.len());
    assert("pronoun"@.len() != "letter"@.len());
    assert("pronoun"@.len() != "term"@.len());
    assert("article"@.len() != "noun"@.len());
    assert("article"@.len() != "verb"@.len());
    assert("article"@.len() != "adj"@.len());
    assert("article"@[0] != "pronoun"@[0]);
    assert("article"@.len() != "num"@.len());
    assert("article"@.len() != "participle"@.len());
    assert("article"@.len() != "letter"@.len());
    assert("article"@.len() != "term"@.len());
    assert("num"@.len() != "noun"@.len());
    assert("num"@.len() != "verb"@.len());
    assert("num"@[0] != "adj"@[0]);
    assert("num"@.len() != "pronoun"@.len());
    assert("num"@.len() != "article"@.len());
    assert("num"@.len() != "participle"@.len());
    assert("num"@.len() != "letter"@.len());
    assert("num"@.len() != "term"@.len());
    assert("participle"@.len() != "noun"@.len());
    assert("participle"@.len() != "verb"@.len());
    assert("participle"@.len() != "adj"@.len());
    assert("participle"@.len() != "pronoun"@.len());
    assert("participle"@.len() != "article"@.len());
    assert("participle"@.len() != "num"@.len());
    assert("participle"@.len() != "letter"@.len());
    assert("participle"@.len() != "term"@.len());
    assert("letter"@.len() != "noun"@.len());
    assert("letter"@.len() != "verb"@.len());
    assert("letter"@.len() != "adj"@.len());
    assert("letter"@.len() != "pronoun"@.len());
    assert("letter"@.len() != "article"@.len());
    assert("letter"@.len() != "num"@.len());
    assert("letter"@.len() != "participle"@.len());
    assert("letter"@.len() != "term"@.len());
    assert("term"@[0] != "noun"@[0]);
    assert("term"@[0] != "verb"@[0]);
    assert("term"@.len() != "adj"@.len());
    assert("term"@.len() != "pronoun"@.len());
    assert("term"@.len() != "article"@.len());
    assert("term"@.len() != "num"@.len());
    assert("term"@.len() != "participle"@.len());
    assert("term"@.len() != "letter"@.len());
    assert(""@.len() != "noun"@.len());
    assert(""@.len() != "verb"@.len());
    assert(""@.len() != "adj"@.len());
    assert(""@.len() != "pronoun"@.len());
    assert(""@.len() != "article"@.len());
    assert(""@.len() != "num"@.len());
    assert(""@.len() != "participle"@.len());
    assert(""@.len() != "letter"@.len());
    assert(""@.len() != "term"@.len());
}

impl Default for Pos {
    fn default() -> (r: Pos)
        ensures
            r == Pos::Noun,
    {
        Pos::Noun
    }
}

/// Grammatical case.
#[derive(Debug, Clone, Copy, PartialEq, Eq, Hash, Structural)]
pub enum Case {
    Nom,
    Gen,
    Dat,
    Acc,
    Voc,
}

pub open spec fn case_all() -> Seq<Case> {
    seq![Case::Nom, Case::Gen, Case::Dat, Case::Acc, Case::Voc]
}

pub open spec fn case_label_ru(x: Case) -> Seq<char> {
    match x {
        Case::Nom => "Именит."@,
        Case::Gen => "Родит."@,
        Case::Dat => "Датель."@,
        Case::Acc => "Винит."@,
        Case::Voc => "Звател."@,
    }
}

pub open spec fn case_label_en(x: Case) -> Seq<char> {
    match x {
        Case::Nom => "Nom"@,
        Case::Gen => "Gen"@,
        Case::Dat => "Dat"@,
        Case::Acc => "Acc"@,
        Case::Voc => "Voc"@,
    }
}

pub open spec fn case_to_db(x: Case) -> Seq<char> {
    match x {
        Case::Nom => "nom"@,
        Case::Gen => "gen"@,
        Case::Dat => "dat"@,
        Case::Acc => "acc"@,
        Case::Voc => "voc"@,
    }
}

pub open spec fn case_from_str(s: Seq<char>) -> Option<Case> {
    if s == "nom"@ {
        Some(Case::Nom)
    } else if s == "gen"@ {
        Some(Case::Gen)
    } else if s == "dat"@ {
        Some(Case::Dat)
    } else if s == "acc"@ {
        Some(Case::Acc)
    } else if s == "voc"@ {
        Some(Case::Voc)
    } else {
        None
    }
}

impl Case {
    pub fn all() -> (r: &'static [Case])
        ensures
            r@ == case_all(),
    {
        &[Case::Nom, Case::Gen, Case::Dat, Case::Acc, Case::Voc]
    }

    pub fn label_ru(&self) -> (r: &'static str)
        ensures
            r@ == case_label_ru(*self),
    {
        match self {
            Case::Nom => "Именит.",
            Case::Gen => "Родит.",
            Case::Dat => "Датель.",
            Case::Acc => "Винит.",
            Case::Voc => "Звател.",
        }
    }

    pub fn label_en(&self) -> (r: &'static str)
        ensures
            r@ == case_label_en(*self),
    {
        match self {
            Case::Nom => "Nom",
            Case::Gen => "Gen",
            Case::Dat => "Dat",
            Case::Acc => "Acc",
            Case::Voc => "Voc",
        }
    }

    pub fn to_db(&self) -> (r: &'static str)
        ensures
            r@ == case_to_db(*self),
    {
        match self {
            Case::Nom => "nom",
            Case::Gen => "gen",
            Case::Dat => "dat",
            Case::Acc => "acc",
            Case::Voc => "voc",
        }
    }

    pub fn from_str(s: &str) -> (r: Option<Case>)
        ensures
            r == case_from_str(s@),
    {
        if str_eq(s, "nom") {
            Some(Case::Nom)
        } else if str_eq(s, "gen") {
            Some(Case::Gen)
        } else if str_eq(s, "dat") {
            Some(Case::Dat)
        } else if str_eq(s, "acc") {
            Some(Case::Acc)
        } else if str_eq(s, "voc") {
            Some(Case::Voc)
        } else {
            None
        }
    }
}

/// Reading back the database spelling of a case gives the same case.
pub proof fn lemma_case_db_round_trip(x: Case)
    ensures
        case_from_str(case_to_db(x)) == Some(x),
{
    reveal_strlit("acc");
    reveal_strlit("dat");
    reveal_strlit("gen");
    reveal_strlit("nom");
    reveal_strlit("voc");
    assert("nom"@[0] != "gen"@[0]);
    assert("nom"@[0] != "dat"@[0]);
    assert("nom"@[0] != "acc"@[0]);
    assert("nom"@[0] != "voc"@[0]);
    assert("gen"@[0] != "nom"@[0]);
    assert("gen"@[0] != "dat"@[0]);
    assert("gen"@[0] != "acc"@[0]);
    assert("gen"@[0] != "voc"@[0]);
    assert("dat"@[0] != "nom"@[0]);
    assert("dat"@[0] != "gen"@[0]);
    assert("dat"@[0] != "acc"@[0]);
    assert("dat"@[0] != "voc"@[0]);
    assert("acc"@[0] != "nom"@[0]);
    assert("acc"@[0] != "gen"@[0]);
    assert("acc"@[0] != "dat"@[0]);
    assert("acc"@[0] != "voc"@[0]);
    assert("voc"@[0] != "nom"@[0]);
    assert("voc"@[0] != "gen"@[0]);
    assert("voc"@[0] != "dat"@[0]);
    assert("voc"@[0] != "acc"@[0]);
}

/// Grammatical number.
#[derive(Debug, Clone, Copy, PartialEq, Eq, Hash, Structural)]
pub enum GNumber {
    Sg,
    Du,
    Pl,
}

pub open spec fn g_number_all() -> Seq<GNumber> {
    seq![GNumber::Sg, GNumber::Du, GNumber::Pl]
}

pub open spec fn g_number_label_ru(x: GNumber) -> Seq<char> {
    match x {
        GNumber::Sg => "Ед."@,
        GNumber::Du => "Дв."@,
        GNumber::Pl => "Мн."@,
    }
}

pub open spec fn g_number_label_en(x: GNumber) -> Seq<char> {
    match x {
        GNumber::Sg => "Sg"@,
        GNumber::Du => "Du"@,
        GNumber::Pl => "Pl"@,
    }
}

pub open spec fn g_number_to_db(x: GNumber) -> Seq<char> {
    match x {
        GNumber::Sg => "sg"@,
        GNumber::Du => "du"@,
        GNumber::Pl => "pl"@,
    }
}

pub open spec fn g_number_from_str(s: Seq<char>) -> Option<GNumber> {
    if s == "sg"@ {
        Some(GNumber::Sg)
    } else if s == "du"@ {
        Some(GNumber::Du)
    } else if s == "pl"@ {
        Some(GNumber::Pl)
    } else {
        None
    }
}

impl GNumber {
    pub fn all() -> (r: &'static [GNumber])
        ensures
            r@ == g_number_all(),
    {
        &[GNumber::Sg, GNumber::Du, GNumber::Pl]
    }

    pub fn label_ru(&self) -> (r: &'static str)
        ensures
            r@ == g_number_label_ru(*self),
    {
        match self {
            GNumber::Sg => "Ед.",
            GNumber::Du => "Дв.",
            GNumber::Pl => "Мн.",
        }
    }

    pub fn label_en(&self) -> (r: &'static str)
        ensures
            r@ == g_number_label_en(*self),
    {
        match self {
            GNumber::Sg => "Sg",
            GNumber::Du => "Du",
            GNumber::Pl => "Pl",
        }
    }

    pub fn to_db(&self) -> (r: &'static str)
        ensures
            r@ == g_number_to_db(*self),
    {
        match self {
            GNumber::Sg => "sg",
            GNumber::Du => "du",
            GNumber::Pl => "pl",
        }
    }

    pub fn from_str(s: &str) -> (r: Option<GNumber>)
        ensures
            r == g_number_from_str(s@),
    {
        if str_eq(s, "sg") {
            Some(GNumber::Sg)
        } else if str_eq(s, "du") {
            Some(GNumber::Du)
        } else if str_eq(s, "pl") {
            Some(GNumber::Pl)
        } else {
            None
        }
    }
}

/// Reading back the database spelling of a g number gives the same g number.
pub proof fn lemma_g_number_db_round_trip(x: GNumber)
    ensures
        g_number_from_str(g_number_to_db(x)) == Some(x),
{
    reveal_strlit("du");
    reveal_strlit("pl");
    reveal_strlit("sg");
    assert("sg"@[0] != "du"@[0]);
    assert("sg"@[0] != "pl"@[0]);
    assert("du"@[0] != "sg"@[0]);
    assert("du"@[0] != "pl"@[0]);
    assert("pl"@[0] != "sg"@[0]);
    assert("pl"@[0] != "du"@[0]);
}

/// Grammatical gender.
#[derive(Debug, Clone, Copy, PartialEq, Eq, Hash, Structural)]
pub enum Gender {
    M,
    F,
    N,
}

pub open spec fn gender_all() -> Seq<Gender> {
    seq![Gender::M, Gender::F, Gender::N]
}

pub open spec fn gender_label_ru(x: Gender) -> Seq<char> {
    match x {
        Gender::M => "М.р."@,
        Gender::F => "Ж.р."@,
        Gender::N => "С.р."@,
    }
}

pub open spec fn gender_label_en(x: Gender) -> Seq<char> {
    match x {
        Gender::M => "M"@,
        Gender::F => "F"@,
        Gender::N => "N"@,
    }
}

pub open spec fn gender_to_db(x: Gender) -> Seq<char> {
    match x {
        Gender::M => "m"@,
        Gender::F => "f"@,
        Gender::N => "n"@,
    }
}

pub open spec fn gender_from_str(s: Seq<char>) -> Option<Gender> {
    if s == "m"@ {
        Some(Gender::M)
    } else if s == "f"@ {
        Some(Gender::F)
    } else if s == "n"@ {
        Some(Gender::N)
    } else {
        None
    }
}

impl Gender {
    pub fn all() -> (r: &'static [Gender])
        ensures
            r@ == gender_all(),
    {
        &[Gender::M, Gender::F, Gender::N]
    }

    pub fn label_ru(&self) -> (r: &'static str)
        ensures
            r@ == gender_label_ru(*self),
    {
        match self {
            Gender::M => "М.р.",
            Gender::F => "Ж.р.",
            Gender::N => "С.р.",
        }
    }

    pub fn label_en(&self) -> (r: &'static str)
        ensures
            r@ == gender_label_en(*self),
    {
        match self {
            Gender::M => "M",
            Gender::F => "F",
            Gender::N => "N",
        }
    }

    pub fn to_db(&self) -> (r: &'static str)
        ensures
            r@ == gender_to_db(*self),
    {
        match self {
            Gender::M => "m",
            Gender::F => "f",
            Gender::N => "n",
        }
    }

    pub fn from_str(s: &str) -> (r: Option<Gender>)
        ensures
            r == gender_from_str(s@),
    {
        if str_eq(s, "m") {
            Some(Gender::M)
        } else if str_eq(s, "f") {
            Some(Gender::F)
        } else if str_eq(s, "n") {
            Some(Gender::N)
        } else {
            None
        }
    }
}

/// Reading back the database spelling of a gender gives the same gender.
pub proof fn lemma_gender_db_round_trip(x: Gender)
    ensures
        gender_from_str(gender_to_db(x)) == Some(x),
{
    reveal_strlit("f");
    reveal_strlit("m");
    reveal_strlit("n");
    assert("m"@[0] != "f"@[0]);
    assert("m"@[0] != "n"@[0]);
    assert("f"@[0] != "m"@[0]);
    assert("f"@[0] != "n"@[0]);
    assert("n"@[0] != "m"@[0]);
    assert("n"@[0] != "f"@[0]);
}

/// Tense (with aspect) of a verb form.
#[derive(Debug, Clone, Copy, PartialEq, Eq, Hash, Structural)]
pub enum Tense {
    Pres,
    Imperf,
    Fut,
    Aor1,
    Aor2,
    AorPass,
    Perf,
    Pluperf,
    Futperf,
}

pub open spec fn tense_all() -> Seq<Tense> {
    seq![Tense::Pres, Tense::Imperf, Tense::Fut, Tense::Aor1, Tense::Aor2, Tense::AorPass, Tense::Perf, Tense::Pluperf, Tense::Futperf]
}

pub open spec fn tense_label_ru(x: Tense) -> Seq<char> {
    match x {
        Tense::Pres => "Наст."@,
        Tense::Imperf => "Импф."@,
        Tense::Fut => "Буд."@,
        Tense::Aor1 => "Аор. I"@,
        Tense::Aor2 => "Аор. II"@,
        Tense::AorPass => "Аор. пас."@,
        Tense::Perf => "Перф."@,
        Tense::Pluperf => "Плюскв."@,
        Tense::Futperf => "Буд.перф."@,
    }
}

pub open spec fn tense_label_en(x: Tense) -> Seq<char> {
    match x {
        Tense::Pres => "Pres"@,
        Tense::Imperf => "Impf"@,
        Tense::Fut => "Fut"@,
        Tense::Aor1 => "Aor I"@,
        Tense::Aor2 => "Aor II"@,
        Tense::AorPass => "Aor Pass"@,
        Tense::Perf => "Perf"@,
        Tense::Pluperf => "Plupf"@,
        Tense::Futperf => "Fut Pf"@,
    }
}

pub open spec fn tense_to_db(x: Tense) -> Seq<char> {
    match x {
        Tense::Pres => "pres"@,
        Tense::Imperf => "imperf"@,
        Tense::Fut => "fut"@,
        Tense::Aor1 => "aor1"@,
        Tense::Aor2 => "aor2"@,
        Tense::AorPass => "aor_pass"@,
        Tense::Perf => "perf"@,
        Tense::Pluperf => "pluperf"@,
        Tense::Futperf => "futperf"@,
    }
}

pub open spec fn tense_from_str(s: Seq<char>) -> Option<Tense> {
    if s == "pres"@ {
        Some(Tense::Pres)
    } else if s == "imperf"@ {
        Some(Tense::Imperf)
    } else if s == "fut"@ {
        Some(Tense::Fut)
    } else if s == "aor1"@ {
        Some(Tense::Aor1)
    } else if s == "aor2"@ {
        Some(Tense::Aor2)
    } else if s == "aor_pass"@ {
        Some(Tense::AorPass)
    } else if s == "perf"@ {
        Some(Tense::Perf)
    } else if s == "pluperf"@ {
        Some(Tense::Pluperf)
    } else if s == "futperf"@ {
        Some(Tense::Futperf)
    } else {
        None
    }
}

impl Tense {
    pub fn all() -> (r: &'static [Tense])
        ensures
            r@ == tense_all(),
    {
        &[Tense::Pres, Tense::Imperf, Tense::Fut, Tense::Aor1, Tense::Aor2, Tense::AorPass, Tense::Perf, Tense::Pluperf, Tense::Futperf]
    }

    pub fn label_ru(&self) -> (r: &'static str)
        ensures
            r@ == tense_label_ru(*self),
    {
        match self {
            Tense::Pres => "Наст.",
            Tense::Imperf => "Импф.",
            Tense::Fut => "Буд.",
            Tense::Aor1 => "Аор. I",
            Tense::Aor2 => "Аор. II",
            Tense::AorPass => "Аор. пас.",
            Tense::Perf => "Перф.",
            Tense::Pluperf => "Плюскв.",
            Tense::Futperf => "Буд.перф.",
        }
    }

    pub fn label_en(&self) -> (r: &'static str)
        ensures
            r@ == tense_label_en(*self),
    {
        match self {
            Tense::Pres => "Pres",
            Tense::Imperf => "Impf",
            Tense::Fut => "Fut",
            Tense::Aor1 => "Aor I",
            Tense::Aor2 => "Aor II",
            Tense::AorPass => "Aor Pass",
            Tense::Perf => "Perf",
            Tense::Pluperf => "Plupf",
            Tense::Futperf => "Fut Pf",
        }
    }

    pub fn to_db(&self) -> (r: &'static str)
        ensures
            r@ == tense_to_db(*self),
    {
        match self {
            Tense::Pres => "pres",
            Tense::Imperf => "imperf",
            Tense::Fut => "fut",
            Tense::Aor1 => "aor1",
            Tense::Aor2 => "aor2",
            Tense::AorPass => "aor_pass",
            Tense::Perf => "perf",
            Tense::Pluperf => "pluperf",
            Tense::Futperf => "futperf",
        }
    }

    pub fn from_str(s: &str) -> (r: Option<Tense>)
        ensures
            r == tense_from_str(s@),
    {
        if str_eq(s, "pres") {
            Some(Tense::Pres)
        } else if str_eq(s, "imperf") {
            Some(Tense::Imperf)
        } else if str_eq(s, "fut") {
            Some(Tense::Fut)
        } else if str_eq(s, "aor1") {
            Some(Tense::Aor1)
        } else if str_eq(s, "aor2") {
            Some(Tense::Aor2)
        } else if str_eq(s, "aor_pass") {
            Some(Tense::AorPass)
        } else if str_eq(s, "perf") {
            Some(Tense::Perf)
        } else if str_eq(s, "pluperf") {
            Some(Tense::Pluperf)
        } else if str_eq(s, "futperf") {
            Some(Tense::Futperf)
        } else {
            None
        }
    }
}

/// Reading back the database spelling of a tense gives the same tense.
pub proof fn lemma_tense_db_round_trip(x: Tense)
    ensures
        tense_from_str(tense_to_db(x)) == Some(x),
{
    reveal_strlit("aor1");
    reveal_strlit("aor2");
    reveal_strlit("aor_pass");
    reveal_strlit("fut");
    reveal_strlit("futperf");
    reveal_strlit("imperf");
    reveal_strlit("perf");
    reveal_strlit("pluperf");
    reveal_strlit("pres");
    assert("pres"@.len() != "imperf"@.len());
    assert("pres"@.len() != "fut"@.len());
    assert("pres"@[0] != "aor1"@[0]);
    assert("pres"@[0] != "aor2"@[0]);
    assert("pres"@.len() != "aor_pass"@.len());
    assert("pres"@[1] != "perf"@[1]);
    assert("pres"@.len() != "pluperf"@.len());
    assert("pres"@.len() != "futperf"@.len());
    assert("imperf"@.len() != "pres"@.len());
    assert("imperf"@.len() != "fut"@.len());
    assert("imperf"@.len() != "aor1"@.len());
    assert("imperf"@.len() != "aor2"@.len());
    assert("imperf"@.len() != "aor_pass"@.len());
    assert("imperf"@.len() != "perf"@.len());
    assert("imperf"@.len() != "pluperf"@.len());
    assert("imperf"@.len() != "futperf"@.len());
    assert("fut"@.len() != "pres"@.len());
    assert("fut"@.len() != "imperf"@.len());
    assert("fut"@.len() != "aor1"@.len());
    assert("fut"@.len() != "aor2"@.len());
    assert("fut"@.len() != "aor_pass"@.len());
    assert("fut"@.len() != "perf"@.len());
    assert("fut"@.len() != "pluperf"@.len());
    assert("fut"@.len() != "futperf"@.len());
    assert("aor1"@[0] != "pres"@[0]);
    assert("aor1"@.len() != "imperf"@.len());
    assert("aor1"@.len() != "fut"@.len());
    assert("aor1"@[3] != "aor2"@[3]);
    assert("aor1"@.len() != "aor_pass"@.len());
    assert("aor1"@[0] != "perf"@[0]);
    assert("aor1"@.len() != "pluperf"@.len());
    assert("aor1"@.len() != "futperf"@.len());
    assert("aor2"@[0] != "pres"@[0]);
    assert("aor2"@.len() != "imperf"@.len());
    assert("aor2"@.len() != "fut"@.len());
    assert("aor2"@[3] != "aor1"@[3]);
    assert("aor2"@.len() != "aor_pass"@.len());
    assert("aor2"@[0] != "perf"@[0]);
    assert("aor2"@.len() != "pluperf"@.len());
    assert("aor2"@.len() != "futperf"@.len());
    assert("aor_pass"@.len() != "pres"@.len());
    assert("aor_pass"@.len() != "imperf"@.len());
    assert("aor_pass"@.len() != "fut"@.len());
    assert("aor_pass"@.len() != "aor1"@.len());
    assert("aor_pass"@.len() != "aor2"@.len());
    assert("aor_pass"@.len() != "perf"@.len());
    assert("aor_pass"@.len() != "pluperf"@.len());
    assert("aor_pass"@.len() != "futperf"@.len());
    assert("perf"@[1] != "pres"@[1]);
    assert("perf"@.len() != "imperf"@.len());
    assert("perf"@.len() != "fut"@.len());
    assert("perf"@[0] != "aor1"@[0]);
    assert("perf"@[0] != "aor2"@[0]);
    assert("perf"@.len() != "aor_pass"@.len());
    assert("perf"@.len() != "pluperf"@.len());
    assert("perf"@.len() != "futperf"@.len());
    assert("pluperf"@.len() != "pres"@.len());
    assert("pluperf"@.len() != "imperf"@.len());
    assert("pluperf"@.len() != "fut"@.len());
    assert("pluperf"@.len() != "aor1"@.len());
    assert("pluperf"@.len() != "aor2"@.len());
    assert("pluperf"@.len() != "aor_pass"@.len());
    assert("pluperf"@.len() != "perf"@.len());
    assert("pluperf"@[0] != "futperf"@[0]);
    assert("futperf"@.len() != "pres"@.len());
    assert("futperf"@.len() != "imperf"@.len());
    assert("futperf"@.len() != "fut"@.len());
    assert("futperf"@.len() != "aor1"@.len());
    assert("futperf"@.len() != "aor2"@.len());
    assert("futperf"@.len() != "aor_pass"@.len());
    assert("futperf"@.len() != "perf"@.len());
    assert("futperf"@[0] != "pluperf"@[0]);
}

/// Voice of a verb form.
#[derive(Debug, Clone, Copy, PartialEq, Eq, Hash, Structural)]
pub enum Voice {
    Act,
    Mid,
    Pass,
    MidPass,
}

pub open spec fn voice_all() -> Seq<Voice> {
    seq![Voice::Act, Voice::Mid, Voice::Pass, Voice::MidPass]
}

pub open spec fn voice_label_ru(x: Voice) -> Seq<char> {
    match x {
        Voice::Act => "Акт."@,
        Voice::Mid => "Мед."@,
        Voice::Pass => "Пас."@,
        Voice::MidPass => "Мед./Пас."@,
    }
}

pub open spec fn voice_label_en(x: Voice) -> Seq<char> {
    match x {
        Voice::Act => "Act"@,
        Voice::Mid => "Mid"@,
        Voice::Pass => "Pass"@,
        Voice::MidPass => "Mid/Pass"@,
    }
}

pub open spec fn voice_to_db(x: Voice) -> Seq<char> {
    match x {
        Voice::Act => "act"@,
        Voice::Mid => "mid"@,
        Voice::Pass => "pass"@,
        Voice::MidPass => "mid_pass"@,
    }
}

pub open spec fn voice_from_str(s: Seq<char>) -> Option<Voice> {
    if s == "act"@ {
        Some(Voice::Act)
    } else if s == "mid"@ {
        Some(Voice::Mid)
    } else if s == "pass"@ {
        Some(Voice::Pass)
    } else if s == "mid_pass"@ || s == "midpass"@ {
        Some(Voice::MidPass)
    } else {
        None
    }
}

impl Voice {
    pub fn all() -> (r: &'static [Voice])
        ensures
            r@ == voice_all(),
    {
        &[Voice::Act, Voice::Mid, Voice::Pass, Voice::MidPass]
    }

    pub fn label_ru(&self) -> (r: &'static str)
        ensures
            r@ == voice_label_ru(*self),
    {
        match self {
            Voice::Act => "Акт.",
            Voice::Mid => "Мед.",
            Voice::Pass => "Пас.",
            Voice::MidPass => "Мед./Пас.",
        }
    }

    pub fn label_en(&self) -> (r: &'static str)
        ensures
            r@ == voice_label_en(*self),
    {
        match self {
            Voice::Act => "Act",
            Voice::Mid => "Mid",
            Voice::Pass => "Pass",
            Voice::MidPass => "Mid/Pass",
        }
    }

    pub fn to_db(&self) -> (r: &'static str)
        ensures
            r@ == voice_to_db(*self),
    {
        match self {
            Voice::Act => "act",
            Voice::Mid => "mid",
            Voice::Pass => "pass",
            Voice::MidPass => "mid_pass",
        }
    }

    pub fn from_str(s: &str) -> (r: Option<Voice>)
        ensures
            r == voice_from_str(s@),
    {
        if str_eq(s, "act") {
            Some(Voice::Act)
        } else if str_eq(s, "mid") {
            Some(Voice::Mid)
        } else if str_eq(s, "pass") {
            Some(Voice::Pass)
        } else if str_eq(s, "mid_pass") || str_eq(s, "midpass") {
            Some(Voice::MidPass)
        } else {
            None
        }
    }
}

/// Reading back the database spelling of a voice gives the same voice.
pub proof fn lemma_voice_db_round_trip(x: Voice)
    ensures
        voice_from_str(voice_to_db(x)) == Some(x),
{
    reveal_strlit("act");
    reveal_strlit("mid");
    reveal_strlit("mid_pass");
    reveal_strlit("midpass");
    reveal_strlit("pass");
    assert("act"@[0] != "mid"@[0]);
    assert("act"@.len() != "pass"@.len());
    assert("act"@.len() != "mid_pass"@.len());
    assert("act"@.len() != "midpass"@.len());
    assert("mid"@[0] != "act"@[0]);
    assert("mid"@.len() != "pass"@.len());
    assert("mid"@.len() != "mid_pass"@.len());
    assert("mid"@.len() != "midpass"@.len());
    assert("pass"@.len() != "act"@.len());
    assert("pass"@.len() != "mid"@.len());
    assert("pass"@.len() != "mid_pass"@.len());
    assert("pass"@.len() != "midpass"@.len());
    assert("mid_pass"@.len() != "act"@.len());
    assert("mid_pass"@.len() != "mid"@.len());
    assert("mid_pass"@.len() != "pass"@.len());
    assert("mid_pass"@.len() != "midpass"@.len());
}

/// Mood of a verb form, with infinitive and participle.
#[derive(Debug, Clone, Copy, PartialEq, Eq, Hash, Structural)]
pub enum Mood {
    Ind,
    Subj,
    Opt,
    Imp,
    Inf,
    Part,
}

pub open spec fn mood_all() -> Seq<Mood> {
    seq![Mood::Ind, Mood::Subj, Mood::Opt, Mood::Imp, Mood::Inf, Mood::Part]
}

pub open spec fn mood_label_ru(x: Mood) -> Seq<char> {
    match x {
        Mood::Ind => "Изъяв."@,
        Mood::Subj => "Сослаг."@,
        Mood::Opt => "Жел."@,
        Mood::Imp => "Повел."@,
        Mood::Inf => "Инфин."@,
        Mood::Part => "Прич."@,
    }
}

pub open spec fn mood_label_en(x: Mood) -> Seq<char> {
    match x {
        Mood::Ind => "Ind"@,
        Mood::Subj => "Subj"@,
        Mood::Opt => "Opt"@,
        Mood::Imp => "Imp"@,
        Mood::Inf => "Inf"@,
        Mood::Part => "Part"@,
    }
}

pub open spec fn mood_to_db(x: Mood) -> Seq<char> {
    match x {
        Mood::Ind => "ind"@,
        Mood::Subj => "subj"@,
        Mood::Opt => "opt"@,
        Mood::Imp => "imp"@,
        Mood::Inf => "inf"@,
        Mood::Part => "part"@,
    }
}

pub open spec fn mood_from_str(s: Seq<char>) -> Option<Mood> {
    if s == "ind"@ {
        Some(Mood::Ind)
    } else if s == "subj"@ {
        Some(Mood::Subj)
    } else if s == "opt"@ {
        Some(Mood::Opt)
    } else if s == "imp"@ {
        Some(Mood::Imp)
    } else if s == "inf"@ {
        Some(Mood::Inf)
    } else if s == "part"@ {
        Some(Mood::Part)
    } else {
        None
    }
}

impl Mood {
    pub fn all() -> (r: &'static [Mood])
        ensures
            r@ == mood_all(),
    {
        &[Mood::Ind, Mood::Subj, Mood::Opt, Mood::Imp, Mood::Inf, Mood::Part]
    }

    pub fn label_ru(&self) -> (r: &'static str)
        ensures
            r@ == mood_label_ru(*self),
    {
        match self {
            Mood::Ind => "Изъяв.",
            Mood::Subj => "Сослаг.",
            Mood::Opt => "Жел.",
            Mood::Imp => "Повел.",
            Mood::Inf => "Инфин.",
            Mood::Part => "Прич.",
        }
    }

    pub fn label_en(&self) -> (r: &'static str)
        ensures
            r@ == mood_label_en(*self),
    {
        match self {
            Mood::Ind => "Ind",
            Mood::Subj => "Subj",
            Mood::Opt => "Opt",
            Mood::Imp => "Imp",
            Mood::Inf => "Inf",
            Mood::Part => "Part",
        }
    }

    pub fn to_db(&self) -> (r: &'static str)
        ensures
            r@ == mood_to_db(*self),
    {
        match self {
            Mood::Ind => "ind",
            Mood::Subj => "subj",
            Mood::Opt => "opt",
            Mood::Imp => "imp",
            Mood::Inf => "inf",
            Mood::Part => "part",
        }
    }

    pub fn from_str(s: &str) -> (r: Option<Mood>)
        ensures
            r == mood_from_str(s@),
    {
        if str_eq(s, "ind") {
            Some(Mood::Ind)
        } else if str_eq(s, "subj") {
            Some(Mood::Subj)
        } else if str_eq(s, "opt") {
            Some(Mood::Opt)
        } else if str_eq(s, "imp") {
            Some(Mood::Imp)
        } else if str_eq(s, "inf") {
            Some(Mood::Inf)
        } else if str_eq(s, "part") {
            Some(Mood::Part)
        } else {
            None
        }
    }
}

/// Reading back the database spelling of a mood gives the same mood.
pub proof fn lemma_mood_db_round_trip(x: Mood)
    ensures
        mood_from_str(mood_to_db(x)) == Some(x),
{
    reveal_strlit("imp");
    reveal_strlit("ind");
    reveal_strlit("inf");
    reveal_strlit("opt");
    reveal_strlit("part");
    reveal_strlit("subj");
    assert("ind"@.len() != "subj"@.len());
    assert("ind"@[0] != "opt"@[0]);
    assert("ind"@[1] != "imp"@[1]);
    assert("ind"@[2] != "inf"@[2]);
    assert("ind"@.len() != "part"@.len());
    assert("subj"@.len() != "ind"@.len());
    assert("subj"@.len() != "opt"@.len());
    assert("subj"@.len() != "imp"@.len());
    assert("subj"@.len() != "inf"@.len());
    assert("subj"@[0] != "part"@[0]);
    assert("opt"@[0] != "ind"@[0]);
    assert("opt"@.len() != "subj"@.len());
    assert("opt"@[0] != "imp"@[0]);
    assert("opt"@[0] != "inf"@[0]);
    assert("opt"@.len() != "part"@.len());
    assert("imp"@[1] != "ind"@[1]);
    assert("imp"@.len() != "subj"@.len());
    assert("imp"@[0] != "opt"@[0]);
    assert("imp"@[1] != "inf"@[1]);
    assert("imp"@.len() != "part"@.len());
    assert("inf"@[2] != "ind"@[2]);
    assert("inf"@.len() != "subj"@.len());
    assert("inf"@[0] != "opt"@[0]);
    assert("inf"@[1] != "imp"@[1]);
    assert("inf"@.len() != "part"@.len());
    assert("part"@.len() != "ind"@.len());
    assert("part"@[0] != "subj"@[0]);
    assert("part"@.len() != "opt"@.len());
    assert("part"@.len() != "imp"@.len());
    assert("part"@.len() != "inf"@.len());
}

/// Grammatical person.
#[derive(Debug, Clone, Copy, PartialEq, Eq, Hash, Structural)]
pub enum Person {
    P1,
    P2,
    P3,
}

pub open spec fn person_all() -> Seq<Person> {
    seq![Person::P1, Person::P2, Person::P3]
}

pub open spec fn person_label_ru(x: Person) -> Seq<char> {
    match x {
        Person::P1 => "1-е"@,
        Person::P2 => "2-е"@,
        Person::P3 => "3-е"@,
    }
}

pub open spec fn person_label_en(x: Person) -> Seq<char> {
    match x {
        Person::P1 => "1st"@,
        Person::P2 => "2nd"@,
        Person::P3 => "3rd"@,
    }
}

pub open spec fn person_to_db(x: Person) -> Seq<char> {
    match x {
        Person::P1 => "1"@,
        Person::P2 => "2"@,
        Person::P3 => "3"@,
    }
}

pub open spec fn person_from_str(s: Seq<char>) -> Option<Person> {
    if s == "1"@ {
        Some(Person::P1)
    } else if s == "2"@ {
        Some(Person::P2)
    } else if s == "3"@ {
        Some(Person::P3)
    } else {
        None
    }
}

impl Person {
    pub fn all() -> (r: &'static [Person])
        ensures
            r@ == person_all(),
    {
        &[Person::P1, Person::P2, Person::P3]
    }

    pub fn label_ru(&self) -> (r: &'static str)
        ensures
            r@ == person_label_ru(*self),
    {
        match self {
            Person::P1 => "1-е",
            Person::P2 => "2-е",
            Person::P3 => "3-е",
        }
    }

    pub fn label_en(&self) -> (r: &'static str)
        ensures
            r@ == person_label_en(*self),
    {
        match self {
            Person::P1 => "1st",
            Person::P2 => "2nd",
            Person::P3 => "3rd",
        }
    }

    pub fn to_db(&self) -> (r: &'static str)
        ensures
            r@ == person_to_db(*self),
    {
        match self {
            Person::P1 => "1",
            Person::P2 => "2",
            Person::P3 => "3",
        }
    }

    pub fn from_str(s: &str) -> (r: Option<Person>)
        ensures
            r == person_from_str(s@),
    {
        if str_eq(s, "1") {
            Some(Person::P1)
        } else if str_eq(s, "2") {
            Some(Person::P2)
        } else if str_eq(s, "3") {
            Some(Person::P3)
        } else {
            None
        }
    }
}

/// Reading back the database spelling of a person gives the same person.
pub proof fn lemma_person_db_round_trip(x: Person)
    ensures
        person_from_str(person_to_db(x)) == Some(x),
{
    reveal_strlit("1");
    reveal_strlit("2");
    reveal_strlit("3");
    assert("1"@[0] != "2"@[0]);
    assert("1"@[0] != "3"@[0]);
    assert("2"@[0] != "1"@[0]);
    assert("2"@[0] != "3"@[0]);
    assert("3"@[0] != "1"@[0]);
    assert("3"@[0] != "2"@[0]);
}

/// Degree of comparison.
#[derive(Debug, Clone, Copy, PartialEq, Eq, Hash, Structural)]
pub enum Degree {
    Pos,
    Comp,
    Superl,
}

pub open spec fn degree_all() -> Seq<Degree> {
    seq![Degree::Pos, Degree::Comp, Degree::Superl]
}

pub open spec fn degree_label_ru(x: Degree) -> Seq<char> {
    match x {
        Degree::Pos => "Полож."@,
        Degree::Comp => "Сравн."@,
        Degree::Superl => "Превосх."@,
    }
}

pub open spec fn degree_label_en(x: Degree) -> Seq<char> {
    match x {
        Degree::Pos => "Pos"@,
        Degree::Comp => "Comp"@,
        Degree::Superl => "Superl"@,
    }
}

pub open spec fn degree_from_str(s: Seq<char>) -> Option<Degree> {
    if s == "pos"@ {
        Some(Degree::Pos)
    } else if s == "comp"@ {
        Some(Degree::Comp)
    } else if s == "superl"@ {
        Some(Degree::Superl)
    } else {
        None
    }
}

impl Degree {
    pub fn all() -> (r: &'static [Degree])
        ensures
            r@ == degree_all(),
    {
        &[Degree::Pos, Degree::Comp, Degree::Superl]
    }

    pub fn label_ru(&self) -> (r: &'static str)
        ensures
            r@ == degree_label_ru(*self),
    {
        match self {
            Degree::Pos => "Полож.",
            Degree::Comp => "Сравн.",
            Degree::Superl => "Превосх.",
        }
    }

    pub fn label_en(&self) -> (r: &'static str)
        ensures
            r@ == degree_label_en(*self),
    {
        match self {
            Degree::Pos => "Pos",
            Degree::Comp => "Comp",
            Degree::Superl => "Superl",
        }
    }

    pub fn from_str(s: &str) -> (r: Option<Degree>)
        ensures
            r == degree_from_str(s@),
    {
        if str_eq(s, "pos") {
            Some(Degree::Pos)
        } else if str_eq(s, "comp") {
            Some(Degree::Comp)
        } else if str_eq(s, "superl") {
            Some(Degree::Superl)
        } else {
            None
        }
    }
}

/// Declension type of a noun (second and third declension).
#[derive(Debug, Clone, Copy, PartialEq, Eq, Hash, Structural)]
pub enum DeclType {
    Os,
    On,
    Attic,
    Contract,
    Sonant,
    Labial,
    Velar,
    Dental,
    Nt,
    Sigma,
    VowelIU,
    Diphth,
    IrregR,
    Unknown3,
    Other,
}

pub open spec fn decl_type_from_str(s: Seq<char>) -> Option<DeclType> {
    if s == "2a_os"@ {
        Some(DeclType::Os)
    } else if s == "2b_on"@ {
        Some(DeclType::On)
    } else if s == "2c_attic"@ {
        Some(DeclType::Attic)
    } else if s == "2d_contract"@ {
        Some(DeclType::Contract)
    } else if s == "3a_sonant"@ {
        Some(DeclType::Sonant)
    } else if s == "3b_labial"@ {
        Some(DeclType::Labial)
    } else if s == "3c_velar"@ {
        Some(DeclType::Velar)
    } else if s == "3d_dental"@ {
        Some(DeclType::Dental)
    } else if s == "3e_nt"@ {
        Some(DeclType::Nt)
    } else if s == "3f_sigma"@ {
        Some(DeclType::Sigma)
    } else if s == "3g_vowel_iu"@ {
        Some(DeclType::VowelIU)
    } else if s == "3h_diphth"@ {
        Some(DeclType::Diphth)
    } else if s == "3i_irreg_r"@ {
        Some(DeclType::IrregR)
    } else if s == "3_unknown"@ {
        Some(DeclType::Unknown3)
    } else {
        None
    }
}

pub open spec fn decl_type_label_ru(x: DeclType) -> Seq<char> {
    match x {
        DeclType::Os => "2-е скл. (-ος)"@,
        DeclType::On => "2-е скл. (-ον)"@,
        DeclType::Attic => "2-е скл. аттич."@,
        DeclType::Contract => "2-е скл. контракт."@,
        DeclType::Sonant => "3-е скл. сонант."@,
        DeclType::Labial => "3-е скл. губной"@,
        DeclType::Velar => "3-е скл. задненёбный"@,
        DeclType::Dental => "3-е скл. зубной"@,
        DeclType::Nt => "3-е скл. (-ντ)"@,
        DeclType::Sigma => "3-е скл. (-σ)"@,
        DeclType::VowelIU => "3-е скл. (-ι/-υ)"@,
        DeclType::Diphth => "3-е скл. дифтонг"@,
        DeclType::IrregR => "3-е скл. нерег. (-ρ)"@,
        DeclType::Unknown3 => "3-е скл. (неизв.)"@,
        DeclType::Other => "Другое"@,
    }
}

impl DeclType {
    pub fn from_str(s: &str) -> (r: Option<DeclType>)
        ensures
            r == decl_type_from_str(s@),
    {
        if str_eq(s, "2a_os") {
            Some(DeclType::Os)
        } else if str_eq(s, "2b_on") {
            Some(DeclType::On)
        } else if str_eq(s, "2c_attic") {
            Some(DeclType::Attic)
        } else if str_eq(s, "2d_contract") {
            Some(DeclType::Contract)
        } else if str_eq(s, "3a_sonant") {
            Some(DeclType::Sonant)
        } else if str_eq(s, "3b_labial") {
            Some(DeclType::Labial)
        } else if str_eq(s, "3c_velar") {
            Some(DeclType::Velar)
        } else if str_eq(s, "3d_dental") {
            Some(DeclType::Dental)
        } else if str_eq(s, "3e_nt") {
            Some(DeclType::Nt)
        } else if str_eq(s, "3f_sigma") {
            Some(DeclType::Sigma)
        } else if str_eq(s, "3g_vowel_iu") {
            Some(DeclType::VowelIU)
        } else if str_eq(s, "3h_diphth") {
            Some(DeclType::Diphth)
        } else if str_eq(s, "3i_irreg_r") {
            Some(DeclType::IrregR)
        } else if str_eq(s, "3_unknown") {
            Some(DeclType::Unknown3)
        } else {
            None
        }
    }

    pub fn label_ru(&self) -> (r: &'static str)
        ensures
            r@ == decl_type_label_ru(*self),
    {
        match self {
            DeclType::Os => "2-е скл. (-ος)",
            DeclType::On => "2-е скл. (-ον)",
            DeclType::Attic => "2-е скл. аттич.",
            DeclType::Contract => "2-е скл. контракт.",
            DeclType::Sonant => "3-е скл. сонант.",
            DeclType::Labial => "3-е скл. губной",
            DeclType::Velar => "3-е скл. задненёбный",
            DeclType::Dental => "3-е скл. зубной",
            DeclType::Nt => "3-е скл. (-ντ)",
            DeclType::Sigma => "3-е скл. (-σ)",
            DeclType::VowelIU => "3-е скл. (-ι/-υ)",
            DeclType::Diphth => "3-е скл. дифтонг",
            DeclType::IrregR => "3-е скл. нерег. (-ρ)",
            DeclType::Unknown3 => "3-е скл. (неизв.)",
            DeclType::Other => "Другое",
        }
    }
}

/// Conjugation type of a verb.
#[derive(Debug, Clone, Copy, PartialEq, Eq, Hash, Structural)]
pub enum ConjType {
    Thematic,
    ThematicCons,
    ContractAo,
    ContractEo,
    ContractOo,
    MiVerb,
}

pub open spec fn conj_type_all() -> Seq<ConjType> {
    seq![ConjType::Thematic, ConjType::ThematicCons, ConjType::ContractAo, ConjType::ContractEo, ConjType::ContractOo, ConjType::MiVerb]
}

pub open spec fn conj_type_label_ru(x: ConjType) -> Seq<char> {
    match x {
        ConjType::Thematic => "Тематич. (-ω)"@,
        ConjType::ThematicCons => "Тематич. согл."@,
        ConjType::ContractAo => "Контракт. (-άω)"@,
        ConjType::ContractEo => "Контракт. (-έω)"@,
        ConjType::ContractOo => "Контракт. (-όω)"@,
        ConjType::MiVerb => "Атематич. (-μι)"@,
    }
}

pub open spec fn conj_type_from_str(s: Seq<char>) -> Option<ConjType> {
    if s == "thematic"@ {
        Some(ConjType::Thematic)
    } else if s == "thematic_cons"@ {
        Some(ConjType::ThematicCons)
    } else if s == "contract_ao"@ {
        Some(ConjType::ContractAo)
    } else if s == "contract_eo"@ {
        Some(ConjType::ContractEo)
    } else if s == "contract_oo"@ {
        Some(ConjType::ContractOo)
    } else if s == "mi_verb"@ {
        Some(ConjType::MiVerb)
    } else {
        None
    }
}

impl ConjType {
    pub fn all() -> (r: &'static [ConjType])
        ensures
            r@ == conj_type_all(),
    {
        &[ConjType::Thematic, ConjType::ThematicCons, ConjType::ContractAo, ConjType::ContractEo, ConjType::ContractOo, ConjType::MiVerb]
    }

    pub fn label_ru(&self) -> (r: &'static str)
        ensures
            r@ == conj_type_label_ru(*self),
    {
        match self {
            ConjType::Thematic => "Тематич. (-ω)",
            ConjType::ThematicCons => "Тематич. согл.",
            ConjType::ContractAo => "Контракт. (-άω)",
            ConjType::ContractEo => "Контракт. (-έω)",
            ConjType::ContractOo => "Контракт. (-όω)",
            ConjType::MiVerb => "Атематич. (-μι)",
        }
    }

    pub fn from_str(s: &str) -> (r: Option<ConjType>)
        ensures
            r == conj_type_from_str(s@),
    {
        if str_eq(s, "thematic") {
            Some(ConjType::Thematic)
        } else if str_eq(s, "thematic_cons") {
            Some(ConjType::ThematicCons)
        } else if str_eq(s, "contract_ao") {
            Some(ConjType::ContractAo)
        } else if str_eq(s, "contract_eo") {
            Some(ConjType::ContractEo)
        } else if str_eq(s, "contract_oo") {
            Some(ConjType::ContractOo)
        } else if str_eq(s, "mi_verb") {
            Some(ConjType::MiVerb)
        } else {
            None
        }
    }
}

} // verus!

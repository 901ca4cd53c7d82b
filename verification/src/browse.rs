//! The decisions of the paradigm browser: which gender columns a nominal
//! table gets, the subtitle under the headword, which verb tables the
//! learner's chips leave, and how a cell is marked by the learner's
//! progress.
use std::collections::HashMap;
use vstd::prelude::*;

use crate::form::Form;
use crate::paradigm::{mood_order, mood_order_of, tense_order, tense_order_of, voice_order, voice_order_of, ParadigmCell, ParadigmTable};
use crate::settings::UiLanguage;
use crate::sm2::ReviewState;
use crate::text::{has_text, join_seqs, join_strs, opt_str_is, str_eq, str_views, string_views};

verus! {

broadcast use vstd::std_specs::hash::group_hash_axioms;

// ── Gender columns ─────────────────────────────────────────────────────────

/// Some form has gender `g`.
pub open spec fn some_gender(forms: Seq<Form>, g: Seq<char>) -> bool {
    exists|i: int| 0 <= i < forms.len() && has_text((#[trigger] forms[i]).gender_tag, g)
}

/// The gender columns of a nominal table: masculine, feminine and neuter
/// as far as some form has them, in that order; masculine when none has.
pub open spec fn genders_present(forms: Seq<Form>) -> Seq<Seq<char>> {
    let s = (if some_gender(forms, "m"@) {
        seq!["m"@]
    } else {
        Seq::empty()
    }) + (if some_gender(forms, "f"@) {
        seq!["f"@]
    } else {
        Seq::empty()
    }) + (if some_gender(forms, "n"@) {
        seq!["n"@]
    } else {
        Seq::empty()
    });
    if s.len() == 0 {
        seq!["m"@]
    } else {
        s
    }
}

fn any_gender(forms: &[Form], g: &str) -> (r: bool)
    ensures
        r == some_gender(forms@, g@),
{
    let mut i: usize = 0;
    while i < forms.len()
        invariant
            i <= forms@.len(),
            forall|j: int| 0 <= j < i ==> !has_text((#[trigger] forms@[j]).gender_tag, g@),
        decreases forms@.len() - i,
    {
        if opt_str_is(&forms[i].gender_tag, g) {
            return true;
        }
        i = i + 1;
    }
    false
}

/// The gender columns of a nominal table for its forms.
pub fn present_genders(forms: &[Form]) -> (r: Vec<&'static str>)
    ensures
        str_views(r@) == genders_present(forms@),
{
    let mut g: Vec<&'static str> = Vec::new();
    let ghost mut s: Seq<Seq<char>> = Seq::empty();
    if any_gender(forms, "m") {
        g.push("m");
        proof {
            s = seq!["m"@];
        }
    }
    assert(str_views(g@) =~= s);
    if any_gender(forms, "f") {
        g.push("f");
        proof {
            s = s + seq!["f"@];
        }
    }
    assert(str_views(g@) =~= s);
    if any_gender(forms, "n") {
        g.push("n");
        proof {
            s = s + seq!["n"@];
        }
    }
    assert(str_views(g@) =~= s);
    assert(s =~= (if some_gender(forms@, "m"@) {
        seq!["m"@]
    } else {
        Seq::empty()
    }) + (if some_gender(forms@, "f"@) {
        seq!["f"@]
    } else {
        Seq::empty()
    }) + (if some_gender(forms@, "n"@) {
        seq!["n"@]
    } else {
        Seq::empty()
    }));
    if g.len() == 0 {
        g.push("m");
        assert(str_views(g@) =~= seq!["m"@]);
    }
    g
}

// ── Cell marks ─────────────────────────────────────────────────────────────

/// How a paradigm cell is marked.
#[derive(Clone, Copy, PartialEq, Eq, Structural, Debug)]
pub enum CellMark {
    /// No form for the cell.
    Empty,
    /// Never answered right.
    Plain,
    /// Answered right, not yet learned.
    Seen,
    /// Learned: five right answers in a row.
    Learned,
}

/// The streak of a form, 0 when it has no record.
pub open spec fn streak_of(progress: Map<i64, ReviewState>, id: i64) -> u32 {
    if progress.contains_key(id) {
        progress[id].streak
    } else {
        0
    }
}

pub open spec fn cell_mark_of(cell: ParadigmCell, progress: Map<i64, ReviewState>) -> CellMark {
    match cell.form {
        None => CellMark::Empty,
        Some(f) => {
            let s = streak_of(progress, f.id);
            if s >= 5 {
                CellMark::Learned
            } else if s > 0 {
                CellMark::Seen
            } else {
                CellMark::Plain
            }
        },
    }
}

/// The mark of a cell by the learner's progress on its form.
pub fn cell_mark(cell: &ParadigmCell, progress: &HashMap<i64, ReviewState>) -> (r: CellMark)
    ensures
        r == cell_mark_of(*cell, progress@),
{
    match &cell.form {
        None => CellMark::Empty,
        Some(f) => {
            let s = match progress.get(&f.id) {
                Some(p) => p.streak,
                None => 0,
            };
            if s >= 5 {
                CellMark::Learned
            } else if s > 0 {
                CellMark::Seen
            } else {
                CellMark::Plain
            }
        },
    }
}

// ── Verb table chips ───────────────────────────────────────────────────────

/// One of the keys of a verb table.
#[derive(Clone, Copy, PartialEq, Eq, Structural, Debug)]
pub enum TableKey {
    Tense,
    Voice,
    Mood,
}

pub open spec fn table_key_of(t: ParadigmTable, which: TableKey) -> Option<String> {
    match which {
        TableKey::Tense => t.tense_key,
        TableKey::Voice => t.voice_key,
        TableKey::Mood => t.mood_key,
    }
}

/// The display rank of a key value.
pub open spec fn key_rank(k: Seq<char>, which: TableKey) -> nat {
    match which {
        TableKey::Tense => tense_order_of(k),
        TableKey::Voice => voice_order_of(k),
        TableKey::Mood => mood_order_of(k),
    }
}

fn key_rank_exec(k: &str, which: TableKey) -> (r: usize)
    ensures
        r == key_rank(k@, which),
{
    match which {
        TableKey::Tense => tense_order(k),
        TableKey::Voice => voice_order(k),
        TableKey::Mood => mood_order(k),
    }
}

/// The distinct values of a key over the tables, in order of first
/// occurrence.
pub open spec fn keys_in_order(tables: Seq<ParadigmTable>, which: TableKey) -> Seq<Seq<char>>
    decreases tables.len(),
{
    if tables.len() == 0 {
        Seq::empty()
    } else {
        let prev = keys_in_order(tables.drop_last(), which);
        match table_key_of(tables.last(), which) {
            Some(k) => if prev.contains(k@) {
                prev
            } else {
                prev.push(k@)
            },
            None => prev,
        }
    }
}

/// `x` inserted into `s` after every value whose rank is not greater.
pub open spec fn rank_insert(s: Seq<Seq<char>>, x: Seq<char>, which: TableKey) -> Seq<Seq<char>>
    decreases s.len(),
{
    if s.len() == 0 {
        seq![x]
    } else if key_rank(s.last(), which) > key_rank(x, which) {
        rank_insert(s.drop_last(), x, which).push(s.last())
    } else {
        s.push(x)
    }
}

/// Stable sort of key values by rank.
pub open spec fn rank_sort(s: Seq<Seq<char>>, which: TableKey) -> Seq<Seq<char>>
    decreases s.len(),
{
    if s.len() == 0 {
        s
    } else {
        rank_insert(rank_sort(s.drop_last(), which), s.last(), which)
    }
}

fn texts_contain_str(v: &Vec<String>, t: &str) -> (r: bool)
    ensures
        r == string_views(v@).contains(t@),
{
    let mut i: usize = 0;
    while i < v.len()
        invariant
            i <= v@.len(),
            forall|j: int| 0 <= j < i ==> v@[j]@ != t@,
        decreases v@.len() - i,
    {
        if str_eq(v[i].as_str(), t) {
            assert(string_views(v@)[i as int] == t@);
            return true;
        }
        i = i + 1;
    }
    proof {
        if string_views(v@).contains(t@) {
            let j = choose|j: int| 0 <= j < string_views(v@).len() && string_views(v@)[j] == t@;
            assert(v@[j]@ == t@);
        }
    }
    false
}

/// The values a key takes over the tables, each once, in display order:
/// the chips offered above the verb tables.
pub fn table_key_values(tables: &Vec<ParadigmTable>, which: TableKey) -> (r: Vec<String>)
    ensures
        string_views(r@) == rank_sort(keys_in_order(tables@, which), which),
{
    let mut keys: Vec<String> = Vec::new();
    let mut i: usize = 0;
    assert(tables@.take(0) =~= Seq::<ParadigmTable>::empty());
    assert(string_views(keys@) =~= Seq::<Seq<char>>::empty());
    while i < tables.len()
        invariant
            i <= tables@.len(),
            string_views(keys@) == keys_in_order(tables@.take(i as int), which),
        decreases tables@.len() - i,
    {
        assert(tables@.take(i + 1).drop_last() =~= tables@.take(i as int));
        assert(tables@.take(i + 1).last() == tables@[i as int]);
        let k = match which {
            TableKey::Tense => &tables[i].tense_key,
            TableKey::Voice => &tables[i].voice_key,
            TableKey::Mood => &tables[i].mood_key,
        };
        match k {
            Some(s) => {
                if !texts_contain_str(&keys, s.as_str()) {
                    let ghost prev = string_views(keys@);
                    keys.push(s.clone());
                    assert(string_views(keys@) =~= prev.push(s@));
                }
            },
            None => {},
        }
        i = i + 1;
    }
    assert(tables@.take(tables@.len() as int) =~= tables@);
    let ghost ks = string_views(keys@);
    let mut out: Vec<String> = Vec::new();
    let mut j: usize = 0;
    assert(ks.take(0) =~= Seq::<Seq<char>>::empty());
    assert(string_views(out@) =~= Seq::<Seq<char>>::empty());
    while j < keys.len()
        invariant
            ks == string_views(keys@),
            j <= keys@.len(),
            string_views(out@) == rank_sort(ks.take(j as int), which),
        decreases keys@.len() - j,
    {
        let x = keys[j].clone();
        let rx = key_rank_exec(x.as_str(), which);
        let ghost s = string_views(out@);
        assert(ks.take(j + 1).drop_last() =~= ks.take(j as int));
        assert(ks.take(j + 1).last() == x@);
        let mut p = out.len();
        assert(s.take(p as int) =~= s);
        assert(s.skip(p as int) =~= Seq::<Seq<char>>::empty());
        assert(rank_insert(s, x@, which) =~= rank_insert(s.take(p as int), x@, which) + s.skip(
            p as int,
        ));
        while p > 0 && key_rank_exec(out[p - 1].as_str(), which) > rx
            invariant
                s == string_views(out@),
                rx == key_rank(x@, which),
                p <= out@.len(),
                rank_insert(s, x@, which) == rank_insert(s.take(p as int), x@, which) + s.skip(
                    p as int,
                ),
            decreases p,
        {
            assert(s.take(p as int).drop_last() =~= s.take(p - 1));
            assert(s.take(p as int).last() == s[p - 1]);
            assert(s.skip(p - 1) =~= seq![s[p - 1]] + s.skip(p as int));
            assert(rank_insert(s.take(p as int), x@, which) == rank_insert(s.take(p - 1), x@, which).push(
                s[p - 1],
            ));
            assert(rank_insert(s, x@, which) =~= rank_insert(s.take(p - 1), x@, which) + s.skip(
                p - 1,
            ));
            p = p - 1;
        }
        if p > 0 {
            assert(s.take(p as int).last() == s[p - 1]);
        }
        assert(rank_insert(s.take(p as int), x@, which) =~= s.take(p as int).push(x@));
        let ghost xv = x@;
        out.insert(p, x);
        assert(string_views(out@) =~= s.take(p as int).push(xv) + s.skip(p as int));
        j = j + 1;
    }
    assert(ks.take(keys@.len() as int) =~= ks);
    out
}

/// A key passes the chips: no chip is on, the table has no such key, or its
/// value is on.
pub open spec fn key_allowed(chips: Seq<Seq<char>>, key: Option<String>) -> bool {
    chips.len() == 0 || match key {
        Some(k) => chips.contains(k@),
        None => true,
    }
}

/// A verb table is shown under the tense, voice and mood chips.
pub open spec fn table_shown(
    t: ParadigmTable,
    tenses: Seq<Seq<char>>,
    voices: Seq<Seq<char>>,
    moods: Seq<Seq<char>>,
) -> bool {
    key_allowed(tenses, t.tense_key) && key_allowed(voices, t.voice_key) && key_allowed(
        moods,
        t.mood_key,
    )
}

fn key_ok(chips: &Vec<String>, key: &Option<String>) -> (r: bool)
    ensures
        r == key_allowed(string_views(chips@), *key),
{
    if chips.len() == 0 {
        return true;
    }
    match key {
        Some(k) => texts_contain_str(chips, k.as_str()),
        None => true,
    }
}

/// The positions of the verb tables shown under the chips, in order.
pub fn shown_tables(
    tables: &Vec<ParadigmTable>,
    tenses: &Vec<String>,
    voices: &Vec<String>,
    moods: &Vec<String>,
) -> (r: Vec<usize>)
    ensures
        forall|k: int| 0 <= k < r@.len() ==> (#[trigger] r@[k]) < tables@.len(),
        forall|a: int, b: int| 0 <= a < b < r@.len() ==> r@[a] < r@[b],
        forall|i: int|
            0 <= i < tables@.len() ==> (r@.contains(i as usize) <==> table_shown(
                #[trigger] tables@[i],
                string_views(tenses@),
                string_views(voices@),
                string_views(moods@),
            )),
{
    let mut r: Vec<usize> = Vec::new();
    let mut i: usize = 0;
    while i < tables.len()
        invariant
            i <= tables@.len(),
            forall|k: int| 0 <= k < r@.len() ==> (#[trigger] r@[k]) < i,
            forall|a: int, b: int| 0 <= a < b < r@.len() ==> r@[a] < r@[b],
            forall|j: int|
                0 <= j < i ==> (r@.contains(j as usize) <==> table_shown(
                    #[trigger] tables@[j],
                    string_views(tenses@),
                    string_views(voices@),
                    string_views(moods@),
                )),
        decreases tables@.len() - i,
    {
        let t = &tables[i];
        let ok = key_ok(tenses, &t.tense_key) && key_ok(voices, &t.voice_key) && key_ok(
            moods,
            &t.mood_key,
        );
        let ghost before = r@;
        if ok {
            r.push(i);
        }
        assert forall|j: int| 0 <= j < i + 1 implies (r@.contains(j as usize) <==> table_shown(
            #[trigger] tables@[j],
            string_views(tenses@),
            string_views(voices@),
            string_views(moods@),
        )) by {
            if j < i {
                if r@.contains(j as usize) {
                    let k = choose|k: int| 0 <= k < r@.len() && r@[k] == j as usize;
                    if k < before.len() {
                        assert(before[k] == j as usize);
                        assert(before.contains(j as usize));
                    }
                }
                if before.contains(j as usize) {
                    let k = choose|k: int| 0 <= k < before.len() && before[k] == j as usize;
                    assert(r@[k] == j as usize);
                }
            } else {
                if ok {
                    assert(r@[r@.len() - 1] == i);
                } else if r@.contains(i) {
                    let k = choose|k: int| 0 <= k < r@.len() && r@[k] == i;
                    assert(before[k] < i);
                }
            }
        }
        i = i + 1;
    }
    r
}

// ── Subtitle ───────────────────────────────────────────────────────────────

/// The conjugation shown for a verb; empty for an unknown type.
pub open spec fn conj_label_of(s: Seq<char>, lang: UiLanguage) -> Seq<char> {
    match lang {
        UiLanguage::Ru => {
            if s == "thematic"@ {
                "на -ω"@
            } else if s == "thematic_cons"@ {
                "на -ω"@
            } else if s == "contract_eo"@ {
                "на -έω"@
            } else if s == "contract_ao"@ {
                "на -άω"@
            } else if s == "contract_oo"@ {
                "на -όω"@
            } else if s == "mi_verb"@ {
                "на -μι"@
            } else {
                Seq::empty()
            }
        },
        UiLanguage::En => {
            if s == "thematic"@ {
                "-ω type"@
            } else if s == "thematic_cons"@ {
                "-ω type"@
            } else if s == "contract_eo"@ {
                "-έω contract"@
            } else if s == "contract_ao"@ {
                "-άω contract"@
            } else if s == "contract_oo"@ {
                "-όω contract"@
            } else if s == "mi_verb"@ {
                "-μι type"@
            } else {
                Seq::empty()
            }
        },
    }
}

fn conj_label(s: &str, lang: &UiLanguage) -> (r: &'static str)
    ensures
        r@ == conj_label_of(s@, *lang),
{
    proof {
        reveal_strlit("");
    }
    match lang {
        UiLanguage::Ru => {
            if str_eq(s, "thematic") {
                "на -ω"
            } else if str_eq(s, "thematic_cons") {
                "на -ω"
            } else if str_eq(s, "contract_eo") {
                "на -έω"
            } else if str_eq(s, "contract_ao") {
                "на -άω"
            } else if str_eq(s, "contract_oo") {
                "на -όω"
            } else if str_eq(s, "mi_verb") {
                "на -μι"
            } else {
                ""
            }
        },
        UiLanguage::En => {
            if str_eq(s, "thematic") {
                "-ω type"
            } else if str_eq(s, "thematic_cons") {
                "-ω type"
            } else if str_eq(s, "contract_eo") {
                "-έω contract"
            } else if str_eq(s, "contract_ao") {
                "-άω contract"
            } else if str_eq(s, "contract_oo") {
                "-όω contract"
            } else if str_eq(s, "mi_verb") {
                "-μι type"
            } else {
                ""
            }
        },
    }
}

/// The kind shown for a participle; empty for an unknown type.
pub open spec fn part_label_of(s: Seq<char>, lang: UiLanguage) -> Seq<char> {
    match lang {
        UiLanguage::Ru => {
            if s == "pres_act"@ {
                "наст. вр., действ. з."@
            } else if s == "pres_pass"@ {
                "наст. вр., страд. з."@
            } else if s == "aor1_act"@ {
                "аорист, действ. з."@
            } else if s == "aor2_act"@ {
                "аорист, действ. з."@
            } else if s == "aor1_pass"@ {
                "аорист, страд. з."@
            } else if s == "aor2_pass"@ {
                "аорист, страд. з."@
            } else if s == "perf_act"@ {
                "перфект, действ. з."@
            } else if s == "perf_pass"@ {
                "перфект, страд. з."@
            } else {
                Seq::empty()
            }
        },
        UiLanguage::En => {
            if s == "pres_act"@ {
                "pres. act."@
            } else if s == "pres_pass"@ {
                "pres. pass."@
            } else if s == "aor1_act"@ {
                "aor. act."@
            } else if s == "aor2_act"@ {
                "aor. act."@
            } else if s == "aor1_pass"@ {
                "aor. pass."@
            } else if s == "aor2_pass"@ {
                "aor. pass."@
            } else if s == "perf_act"@ {
                "perf. act."@
            } else if s == "perf_pass"@ {
                "perf. pass."@
            } else {
                Seq::empty()
            }
        },
    }
}

fn part_label(s: &str, lang: &UiLanguage) -> (r: &'static str)
    ensures
        r@ == part_label_of(s@, *lang),
{
    proof {
        reveal_strlit("");
    }
    match lang {
        UiLanguage::Ru => {
            if str_eq(s, "pres_act") {
                "наст. вр., действ. з."
            } else if str_eq(s, "pres_pass") {
                "наст. вр., страд. з."
            } else if str_eq(s, "aor1_act") {
                "аорист, действ. з."
            } else if str_eq(s, "aor2_act") {
                "аорист, действ. з."
            } else if str_eq(s, "aor1_pass") {
                "аорист, страд. з."
            } else if str_eq(s, "aor2_pass") {
                "аорист, страд. з."
            } else if str_eq(s, "perf_act") {
                "перфект, действ. з."
            } else if str_eq(s, "perf_pass") {
                "перфект, страд. з."
            } else {
                ""
            }
        },
        UiLanguage::En => {
            if str_eq(s, "pres_act") {
                "pres. act."
            } else if str_eq(s, "pres_pass") {
                "pres. pass."
            } else if str_eq(s, "aor1_act") {
                "aor. act."
            } else if str_eq(s, "aor2_act") {
                "aor. act."
            } else if str_eq(s, "aor1_pass") {
                "aor. pass."
            } else if str_eq(s, "aor2_pass") {
                "aor. pass."
            } else if str_eq(s, "perf_act") {
                "perf. act."
            } else if str_eq(s, "perf_pass") {
                "perf. pass."
            } else {
                ""
            }
        },
    }
}

/// An extra tag of a form that a subtitle is taken from.
#[derive(Clone, Copy, PartialEq, Eq, Structural, Debug)]
pub enum ExtraTag {
    Decl,
    Conj,
    Part,
}

pub open spec fn extra_tag_of(f: Form, which: ExtraTag) -> Option<String> {
    match which {
        ExtraTag::Decl => f.decl_type,
        ExtraTag::Conj => f.conj_type,
        ExtraTag::Part => f.part_type,
    }
}

/// The first form's value of the tag, among the forms that have it.
pub open spec fn first_extra(forms: Seq<Form>, which: ExtraTag) -> Option<Seq<char>>
    decreases forms.len(),
{
    if forms.len() == 0 {
        None
    } else {
        match extra_tag_of(forms[0], which) {
            Some(t) => Some(t@),
            None => first_extra(forms.drop_first(), which),
        }
    }
}

fn find_extra(forms: &[Form], which: ExtraTag) -> (r: Option<&String>)
    ensures
        match r {
            Some(t) => first_extra(forms@, which) == Some(t@),
            None => first_extra(forms@, which) is None,
        },
{
    let mut i: usize = 0;
    assert(forms@.skip(0) =~= forms@);
    while i < forms.len()
        invariant
            i <= forms@.len(),
            first_extra(forms@, which) == first_extra(forms@.skip(i as int), which),
        decreases forms@.len() - i,
    {
        assert(forms@.skip(i as int)[0] == forms@[i as int]);
        assert(forms@.skip(i as int).drop_first() =~= forms@.skip(i + 1));
        let t = match which {
            ExtraTag::Decl => &forms[i].decl_type,
            ExtraTag::Conj => &forms[i].conj_type,
            ExtraTag::Part => &forms[i].part_type,
        };
        match t {
            Some(s) => {
                return Some(s);
            },
            None => {},
        }
        i = i + 1;
    }
    None
}

/// The declension shown for a noun, by the first digit of its type; empty
/// for another type.
pub open spec fn decl_label_of(d: Seq<char>, lang: UiLanguage) -> Seq<char> {
    if d.len() > 0 && d[0] == '1' {
        match lang {
            UiLanguage::Ru => "1-е склонение"@,
            UiLanguage::En => "1st declension"@,
        }
    } else if d.len() > 0 && d[0] == '2' {
        match lang {
            UiLanguage::Ru => "2-е склонение"@,
            UiLanguage::En => "2nd declension"@,
        }
    } else if d.len() > 0 && d[0] == '3' {
        match lang {
            UiLanguage::Ru => "3-е склонение"@,
            UiLanguage::En => "3rd declension"@,
        }
    } else {
        Seq::empty()
    }
}

fn decl_label(d: &str, lang: &UiLanguage) -> (r: &'static str)
    ensures
        r@ == decl_label_of(d@, *lang),
{
    proof {
        reveal_strlit("");
    }
    let c = if d.unicode_len() > 0 {
        d.get_char(0)
    } else {
        ' '
    };
    if c == '1' {
        match lang {
            UiLanguage::Ru => "1-е склонение",
            UiLanguage::En => "1st declension",
        }
    } else if c == '2' {
        match lang {
            UiLanguage::Ru => "2-е склонение",
            UiLanguage::En => "2nd declension",
        }
    } else if c == '3' {
        match lang {
            UiLanguage::Ru => "3-е склонение",
            UiLanguage::En => "3rd declension",
        }
    } else {
        ""
    }
}

/// The word "participle".
pub open spec fn participle_word(lang: UiLanguage) -> Seq<char> {
    match lang {
        UiLanguage::Ru => "причастие"@,
        UiLanguage::En => "participle"@,
    }
}

/// The subtitle under a headword: the declension of a noun, the
/// conjugation of a verb, or "participle" with its kind; parts joined by
/// " · ".
pub open spec fn subtitle_of(pos: Seq<char>, forms: Seq<Form>, lang: UiLanguage) -> Seq<char> {
    if pos == "noun"@ {
        match first_extra(forms, ExtraTag::Decl) {
            Some(d) => decl_label_of(d, lang),
            None => Seq::empty(),
        }
    } else if pos == "verb"@ {
        match first_extra(forms, ExtraTag::Conj) {
            Some(c) => conj_label_of(c, lang),
            None => Seq::empty(),
        }
    } else if pos == "participle"@ {
        match first_extra(forms, ExtraTag::Part) {
            Some(p) => if part_label_of(p, lang).len() > 0 {
                join_seqs(seq![participle_word(lang), part_label_of(p, lang)], " · "@)
            } else {
                participle_word(lang)
            },
            None => participle_word(lang),
        }
    } else {
        Seq::empty()
    }
}

/// The subtitle under the headword of a paradigm.
pub fn paradigm_subtitle(pos: &str, forms: &[Form], lang: &UiLanguage) -> (r: String)
    ensures
        r@ == subtitle_of(pos@, forms@, *lang),
{
    if str_eq(pos, "noun") {
        match find_extra(forms, ExtraTag::Decl) {
            Some(d) => String::from_str(decl_label(d.as_str(), lang)),
            None => String::new(),
        }
    } else if str_eq(pos, "verb") {
        match find_extra(forms, ExtraTag::Conj) {
            Some(c) => String::from_str(conj_label(c.as_str(), lang)),
            None => String::new(),
        }
    } else if str_eq(pos, "participle") {
        let word = match lang {
            UiLanguage::Ru => "причастие",
            UiLanguage::En => "participle",
        };
        let mut parts: Vec<&str> = vec![word];
        match find_extra(forms, ExtraTag::Part) {
            Some(p) => {
                let label = part_label(p.as_str(), lang);
                if label.unicode_len() > 0 {
                    parts.push(label);
                }
            },
            None => {},
        }
        let r = join_strs(&parts, " · ");
        proof {
            if parts@.len() == 1 {
                assert(str_views(parts@) =~= seq![word@]);
            } else {
                assert(str_views(parts@) =~= seq![word@, parts@[1]@]);
                assert(str_views(parts@).drop_last() =~= seq![word@]);
            }
        }
        r
    } else {
        String::new()
    }
}

} // verus!

//! The word catalogue of the application: the embedded lemmas and forms
//! together with the paradigms the learner adds, and the selection of forms
//! for a drill.
use std::collections::HashMap;
use vstd::prelude::*;

use crate::filter::{filter_matches, ids_other_than, ids_without, FilterParams};
use crate::form::{paradigm_form, Form, Lemma};
use crate::sm2::{due_at, learned, ReviewState};
use crate::text::{clone_opt_string, has_text, opt_str_is, trim, trim_seq};

verus! {

broadcast use vstd::std_specs::hash::group_hash_axioms;

/// Lemmas and forms the learner made, as they are stored.
#[derive(Debug, Clone)]
pub struct CustomData {
    pub lemmas: Vec<Lemma>,
    pub forms: Vec<Form>,
}

/// One filled cell of a nominal paradigm being built.
#[derive(Debug, Clone)]
pub struct CustomFormEntry {
    pub case_tag: String,
    pub number_tag: String,
    pub greek_form: String,
}

/// One filled cell of a verb paradigm being built.
#[derive(Debug, Clone)]
pub struct CustomVerbFormEntry {
    pub tense_tag: String,
    pub mood_tag: String,
    pub voice_tag: String,
    pub person_tag: String,
    pub number_tag: String,
    pub greek_form: String,
}

/// A nominal paradigm as the learner entered it.
#[derive(Debug, Clone)]
pub struct CustomNominalParadigmDraft {
    pub lemma_greek: String,
    pub translation: Option<String>,
    pub pos: String,
    pub gender: Option<String>,
    pub entries: Vec<CustomFormEntry>,
}

/// A verb paradigm as the learner entered it.
#[derive(Debug, Clone)]
pub struct CustomVerbParadigmDraft {
    pub lemma_greek: String,
    pub translation: Option<String>,
    pub entries: Vec<CustomVerbFormEntry>,
}

/// All lemmas and forms, with the learner's own kept apart as well.
#[derive(Debug, Clone)]
pub struct Catalog {
    /// Embedded and custom forms.
    pub forms: Vec<Form>,
    /// Embedded and custom lemmas.
    pub lemmas: Vec<Lemma>,
    /// The learner's lemmas.
    pub custom_lemmas: Vec<Lemma>,
    /// The learner's forms.
    pub custom_forms: Vec<Form>,
}

// ── Copies ─────────────────────────────────────────────────────────────────

fn append_forms(dst: &mut Vec<Form>, src: &Vec<Form>)
    ensures
        final(dst)@ == old(dst)@ + src@,
{
    let mut i: usize = 0;
    while i < src.len()
        invariant
            i <= src.len(),
            dst@ == old(dst)@ + src@.take(i as int),
        decreases src.len() - i,
    {
        dst.push(src[i].duplicate());
        i = i + 1;
        assert(dst@ =~= old(dst)@ + src@.take(i as int));
    }
    assert(src@.take(src.len() as int) =~= src@);
}

fn append_lemmas(dst: &mut Vec<Lemma>, src: &Vec<Lemma>)
    ensures
        final(dst)@ == old(dst)@ + src@,
{
    let mut i: usize = 0;
    while i < src.len()
        invariant
            i <= src.len(),
            dst@ == old(dst)@ + src@.take(i as int),
        decreases src.len() - i,
    {
        dst.push(src[i].duplicate());
        i = i + 1;
        assert(dst@ =~= old(dst)@ + src@.take(i as int));
    }
    assert(src@.take(src.len() as int) =~= src@);
}

// ── Selection ──────────────────────────────────────────────────────────────

/// The form is due, or has no progress record yet.
pub open spec fn due_or_new(progress: Map<i64, ReviewState>, id: i64, now: i64) -> bool {
    progress.contains_key(id) ==> due_at(progress[id], now)
}

/// The form has a progress record that counts as learned.
pub open spec fn known_learned(progress: Map<i64, ReviewState>, id: i64) -> bool {
    progress.contains_key(id) && learned(progress[id])
}

/// Whether a form takes part in a drill.
pub open spec fn selected(
    f: Form,
    filter: FilterParams,
    include_dual: bool,
    progress: Map<i64, ReviewState>,
    now: i64,
) -> bool {
    &&& paradigm_form(f)
    &&& (include_dual || !has_text(f.number_tag, "du"@))
    &&& filter_matches(filter, f)
    &&& (filter.only_due ==> due_or_new(progress, f.id, now))
    &&& (filter.exclude_learned ==> !known_learned(progress, f.id))
}

/// The forms that take part in a drill, in catalogue order.
pub open spec fn selected_forms(
    forms: Seq<Form>,
    filter: FilterParams,
    include_dual: bool,
    progress: Map<i64, ReviewState>,
    now: i64,
) -> Seq<Form>
    decreases forms.len(),
{
    if forms.len() == 0 {
        Seq::empty()
    } else {
        let prev = selected_forms(forms.drop_last(), filter, include_dual, progress, now);
        if selected(forms.last(), filter, include_dual, progress, now) {
            prev.push(forms.last())
        } else {
            prev
        }
    }
}

/// The forms of a lemma that belong in its paradigm, in catalogue order.
pub open spec fn lemma_paradigm_forms(forms: Seq<Form>, lemma_id: i64) -> Seq<Form>
    decreases forms.len(),
{
    if forms.len() == 0 {
        Seq::empty()
    } else {
        let prev = lemma_paradigm_forms(forms.drop_last(), lemma_id);
        if forms.last().lemma_id == lemma_id && paradigm_form(forms.last()) {
            prev.push(forms.last())
        } else {
            prev
        }
    }
}

/// Some paradigm form belongs to the lemma.
pub open spec fn has_paradigm(forms: Seq<Form>, lemma_id: i64) -> bool {
    exists|i: int|
        0 <= i < forms.len() && (#[trigger] forms[i]).lemma_id == lemma_id && paradigm_form(forms[i])
}

/// The first lemma with the given id.
pub open spec fn first_lemma_with_id(lemmas: Seq<Lemma>, id: i64) -> Option<Lemma>
    decreases lemmas.len(),
{
    if lemmas.len() == 0 {
        None
    } else if lemmas[0].id == id {
        Some(lemmas[0])
    } else {
        first_lemma_with_id(lemmas.drop_first(), id)
    }
}

/// The first lemma of a list with the given id.
pub fn find_lemma(lemmas: &[Lemma], id: i64) -> (r: Option<Lemma>)
    ensures
        r == first_lemma_with_id(lemmas@, id),
{
    let mut i: usize = 0;
    assert(lemmas@.skip(0) =~= lemmas@);
    while i < lemmas.len()
        invariant
            i <= lemmas@.len(),
            first_lemma_with_id(lemmas@, id) == first_lemma_with_id(lemmas@.skip(i as int), id),
        decreases lemmas.len() - i,
    {
        assert(lemmas@.skip(i as int)[0] == lemmas@[i as int]);
        assert(lemmas@.skip(i as int).drop_first() =~= lemmas@.skip(i + 1));
        if lemmas[i].id == id {
            return Some(lemmas[i].duplicate());
        }
        i = i + 1;
    }
    None
}

/// `lemmas` without the lemmas of the given id.
pub open spec fn lemmas_without(lemmas: Seq<Lemma>, id: i64) -> Seq<Lemma>
    decreases lemmas.len(),
{
    if lemmas.len() == 0 {
        Seq::empty()
    } else {
        let prev = lemmas_without(lemmas.drop_last(), id);
        if lemmas.last().id != id {
            prev.push(lemmas.last())
        } else {
            prev
        }
    }
}

/// `forms` without the forms of the given lemma.
pub open spec fn forms_without(forms: Seq<Form>, lemma_id: i64) -> Seq<Form>
    decreases forms.len(),
{
    if forms.len() == 0 {
        Seq::empty()
    } else {
        let prev = forms_without(forms.drop_last(), lemma_id);
        if forms.last().lemma_id != lemma_id {
            prev.push(forms.last())
        } else {
            prev
        }
    }
}

fn forms_other_than(forms: &Vec<Form>, lemma_id: i64) -> (r: Vec<Form>)
    ensures
        r@ == forms_without(forms@, lemma_id),
{
    let mut r: Vec<Form> = Vec::new();
    let mut i: usize = 0;
    assert(forms@.take(0) =~= Seq::<Form>::empty());
    while i < forms.len()
        invariant
            i <= forms@.len(),
            r@ == forms_without(forms@.take(i as int), lemma_id),
        decreases forms.len() - i,
    {
        assert(forms@.take(i + 1).drop_last() =~= forms@.take(i as int));
        if forms[i].lemma_id != lemma_id {
            r.push(forms[i].duplicate());
        }
        i = i + 1;
    }
    assert(forms@.take(forms.len() as int) =~= forms@);
    r
}

fn lemmas_other_than(lemmas: &Vec<Lemma>, id: i64) -> (r: Vec<Lemma>)
    ensures
        r@ == lemmas_without(lemmas@, id),
{
    let mut r: Vec<Lemma> = Vec::new();
    let mut i: usize = 0;
    assert(lemmas@.take(0) =~= Seq::<Lemma>::empty());
    while i < lemmas.len()
        invariant
            i <= lemmas@.len(),
            r@ == lemmas_without(lemmas@.take(i as int), id),
        decreases lemmas.len() - i,
    {
        assert(lemmas@.take(i + 1).drop_last() =~= lemmas@.take(i as int));
        if lemmas[i].id != id {
            r.push(lemmas[i].duplicate());
        }
        i = i + 1;
    }
    assert(lemmas@.take(lemmas.len() as int) =~= lemmas@);
    r
}

impl Catalog {
    /// The catalogue of the embedded data with the learner's own lemmas and
    /// forms appended.
    pub fn init(forms: Vec<Form>, lemmas: Vec<Lemma>, custom: CustomData) -> (c: Catalog)
        ensures
            c.forms@ == forms@ + custom.forms@,
            c.lemmas@ == lemmas@ + custom.lemmas@,
            c.custom_lemmas@ == custom.lemmas@,
            c.custom_forms@ == custom.forms@,
    {
        let mut forms = forms;
        let mut lemmas = lemmas;
        append_forms(&mut forms, &custom.forms);
        append_lemmas(&mut lemmas, &custom.lemmas);
        Catalog { forms, lemmas, custom_lemmas: custom.lemmas, custom_forms: custom.forms }
    }

    /// The forms for a drill: paradigm forms, without duals unless they are
    /// wanted, that pass the filter and its progress switches.
    pub fn filtered_forms(
        &self,
        filter: &FilterParams,
        include_dual: bool,
        progress: &HashMap<i64, ReviewState>,
        now: i64,
    ) -> (r: Vec<Form>)
        ensures
            r@ == selected_forms(self.forms@, *filter, include_dual, progress@, now),
    {
        let forms = &self.forms;
        let mut r: Vec<Form> = Vec::new();
        let mut i: usize = 0;
        assert(forms@.take(0) =~= Seq::<Form>::empty());
        while i < forms.len()
            invariant
                forms == &self.forms,
                i <= forms@.len(),
                r@ == selected_forms(forms@.take(i as int), *filter, include_dual, progress@, now),
            decreases forms.len() - i,
        {
            let f = &forms[i];
            assert(forms@.take(i + 1).drop_last() =~= forms@.take(i as int));
            assert(forms@.take(i + 1).last() == *f);
            let mut keep = f.is_paradigm_form();
            if keep && !include_dual && opt_str_is(&f.number_tag, "du") {
                keep = false;
            }
            if keep && !filter.matches_form(f) {
                keep = false;
            }
            if keep && filter.only_due {
                let due = match progress.get(&f.id) {
                    Some(p) => p.is_due_at(now),
                    None => true,
                };
                if !due {
                    keep = false;
                }
            }
            if keep && filter.exclude_learned {
                let done = match progress.get(&f.id) {
                    Some(p) => p.is_learned(),
                    None => false,
                };
                if done {
                    keep = false;
                }
            }
            if keep {
                r.push(f.duplicate());
            }
            i = i + 1;
        }
        assert(forms@.take(forms.len() as int) =~= forms@);
        r
    }

    /// Whether the lemma has at least one paradigm form.
    pub fn lemma_has_paradigm(&self, lemma_id: i64) -> (r: bool)
        ensures
            r == has_paradigm(self.forms@, lemma_id),
    {
        let mut i: usize = 0;
        while i < self.forms.len()
            invariant
                i <= self.forms@.len(),
                forall|j: int|
                    0 <= j < i ==> !((#[trigger] self.forms@[j]).lemma_id == lemma_id
                        && paradigm_form(self.forms@[j])),
            decreases self.forms.len() - i,
        {
            if self.forms[i].lemma_id == lemma_id && self.forms[i].is_paradigm_form() {
                return true;
            }
            i = i + 1;
        }
        false
    }

    /// The first lemma with the given id.
    pub fn lemma_by_id(&self, id: i64) -> (r: Option<Lemma>)
        ensures
            r == first_lemma_with_id(self.lemmas@, id),
    {
        find_lemma(self.lemmas.as_slice(), id)
    }

    /// The paradigm forms of a lemma, in catalogue order.
    pub fn paradigm_forms_for_lemma(&self, lemma_id: i64) -> (r: Vec<Form>)
        ensures
            r@ == lemma_paradigm_forms(self.forms@, lemma_id),
    {
        let forms = &self.forms;
        let mut r: Vec<Form> = Vec::new();
        let mut i: usize = 0;
        assert(forms@.take(0) =~= Seq::<Form>::empty());
        while i < forms.len()
            invariant
                forms == &self.forms,
                i <= forms@.len(),
                r@ == lemma_paradigm_forms(forms@.take(i as int), lemma_id),
            decreases forms.len() - i,
        {
            assert(forms@.take(i + 1).drop_last() =~= forms@.take(i as int));
            if forms[i].lemma_id == lemma_id && forms[i].is_paradigm_form() {
                r.push(forms[i].duplicate());
            }
            i = i + 1;
        }
        assert(forms@.take(forms.len() as int) =~= forms@);
        r
    }

    /// Removes a custom lemma and its forms everywhere, and from the lemma
    /// list of the active filter.
    pub fn remove_custom_paradigm(&mut self, lemma_id: i64, filter: &mut FilterParams)
        ensures
            final(self).custom_lemmas@ == lemmas_without(old(self).custom_lemmas@, lemma_id),
            final(self).custom_forms@ == forms_without(old(self).custom_forms@, lemma_id),
            final(self).lemmas@ == lemmas_without(old(self).lemmas@, lemma_id),
            final(self).forms@ == forms_without(old(self).forms@, lemma_id),
            final(filter).lemma_ids@ == ids_without(old(filter).lemma_ids@, lemma_id),
            *final(filter) == (FilterParams { lemma_ids: final(filter).lemma_ids, ..*old(filter) }),
    {
        self.custom_lemmas = lemmas_other_than(&self.custom_lemmas, lemma_id);
        self.custom_forms = forms_other_than(&self.custom_forms, lemma_id);
        self.lemmas = lemmas_other_than(&self.lemmas, lemma_id);
        self.forms = forms_other_than(&self.forms, lemma_id);
        filter.lemma_ids = ids_other_than(&filter.lemma_ids, lemma_id);
    }
}

// ── Custom paradigms ───────────────────────────────────────────────────────

/// The message when the headword is missing.
pub open spec fn missing_headword_msg() -> Seq<char> {
    "Укажите заголовочную форму леммы."@
}

/// The message when a nominal paradigm has no filled cell.
pub open spec fn empty_nominal_msg() -> Seq<char> {
    "Заполните хотя бы одну форму в парадигме."@
}

/// The message when a verb paradigm has no filled cell.
pub open spec fn empty_verb_msg() -> Seq<char> {
    "Заполните хотя бы одну глагольную форму в парадигме."@
}

/// Only whitespace, or nothing.
pub open spec fn blank(s: Seq<char>) -> bool {
    trim_seq(s).len() == 0
}

/// An optional text, trimmed, with blank text read as absent.
pub open spec fn trimmed_text(o: Option<String>) -> Option<Seq<char>> {
    match o {
        Some(v) => if blank(v@) {
            None
        } else {
            Some(trim_seq(v@))
        },
        None => None,
    }
}

/// The text of an optional string.
pub open spec fn text_view(o: Option<String>) -> Option<Seq<char>> {
    match o {
        Some(v) => Some(v@),
        None => None,
    }
}

/// The largest lemma id, 0 for no lemma.
pub open spec fn max_lemma_id(ls: Seq<Lemma>) -> int
    decreases ls.len(),
{
    if ls.len() == 0 {
        0
    } else if ls.len() == 1 {
        ls[0].id as int
    } else {
        let m = max_lemma_id(ls.drop_last());
        if ls.last().id > m {
            ls.last().id as int
        } else {
            m
        }
    }
}

/// The largest form id, 0 for no form.
pub open spec fn max_form_id(fs: Seq<Form>) -> int
    decreases fs.len(),
{
    if fs.len() == 0 {
        0
    } else if fs.len() == 1 {
        fs[0].id as int
    } else {
        let m = max_form_id(fs.drop_last());
        if fs.last().id > m {
            fs.last().id as int
        } else {
            m
        }
    }
}

/// The nominal entries whose form is not blank, in order.
pub open spec fn filled_nominal(es: Seq<CustomFormEntry>) -> Seq<CustomFormEntry>
    decreases es.len(),
{
    if es.len() == 0 {
        Seq::empty()
    } else {
        let prev = filled_nominal(es.drop_last());
        if blank(es.last().greek_form@) {
            prev
        } else {
            prev.push(es.last())
        }
    }
}

/// The verb entries whose form is not blank, in order.
pub open spec fn filled_verb(es: Seq<CustomVerbFormEntry>) -> Seq<CustomVerbFormEntry>
    decreases es.len(),
{
    if es.len() == 0 {
        Seq::empty()
    } else {
        let prev = filled_verb(es.drop_last());
        if blank(es.last().greek_form@) {
            prev
        } else {
            prev.push(es.last())
        }
    }
}

/// The lemma made for a custom paradigm.
pub open spec fn custom_lemma_ok(
    l: Lemma,
    id: i64,
    greek: Seq<char>,
    translation: Option<String>,
    pos: Seq<char>,
) -> bool {
    &&& l.id == id
    &&& l.greek@ == trim_seq(greek)
    &&& l.latin is None
    &&& l.english is None
    &&& text_view(l.russian) == trimmed_text(translation)
    &&& has_text(l.part_of_speech, pos)
    &&& l.category_id is None
    &&& l.lesson_kozar is None
    &&& l.lesson_mast is None
    &&& l.sort_order == 10_000 + (id as i32)
}

/// The fields every custom form leaves empty.
pub open spec fn custom_form_blank_fields(f: Form) -> bool {
    &&& f.transliteration is None
    &&& f.category_id is None
    &&& f.degree_tag is None
    &&& f.adj_class is None
    &&& f.part_type is None
    &&& f.num_type is None
    &&& f.pron_type is None
    &&& f.lesson_kozar is None
    &&& f.lesson_mast is None
    &&& has_text(f.notes, "custom"@)
}

/// The form made from the `index`-th filled cell of a nominal paradigm.
pub open spec fn custom_nominal_form_ok(
    f: Form,
    e: CustomFormEntry,
    id: int,
    lemma_id: i64,
    index: int,
    pos: Seq<char>,
    gender: Option<Seq<char>>,
) -> bool {
    &&& f.id == id
    &&& f.lemma_id == lemma_id
    &&& f.greek_form@ == trim_seq(e.greek_form@)
    &&& has_text(f.pos, pos)
    &&& has_text(f.case_tag, e.case_tag@)
    &&& has_text(f.number_tag, e.number_tag@)
    &&& text_view(f.gender_tag) == gender
    &&& f.tense_tag is None
    &&& f.voice_tag is None
    &&& f.mood_tag is None
    &&& f.person_tag is None
    &&& has_text(f.decl_type, "custom"@)
    &&& f.conj_type is None
    &&& f.paradigm_row == Some(index as i32)
    &&& f.sort_order == index as i32
    &&& custom_form_blank_fields(f)
}

/// The form made from the `index`-th filled cell of a verb paradigm.
pub open spec fn custom_verb_form_ok(
    f: Form,
    e: CustomVerbFormEntry,
    id: int,
    lemma_id: i64,
    index: int,
) -> bool {
    &&& f.id == id
    &&& f.lemma_id == lemma_id
    &&& f.greek_form@ == trim_seq(e.greek_form@)
    &&& has_text(f.pos, "verb"@)
    &&& f.case_tag is None
    &&& has_text(f.number_tag, e.number_tag@)
    &&& f.gender_tag is None
    &&& has_text(f.tense_tag, e.tense_tag@)
    &&& has_text(f.voice_tag, e.voice_tag@)
    &&& has_text(f.mood_tag, e.mood_tag@)
    &&& has_text(f.person_tag, e.person_tag@)
    &&& f.decl_type is None
    &&& has_text(f.conj_type, "custom"@)
    &&& f.paradigm_row == Some(index as i32)
    &&& f.sort_order == index as i32
    &&& custom_form_blank_fields(f)
}

/// The ids of a new paradigm fit: the next lemma id, its sort key, and the
/// ids of `count` new forms.
pub open spec fn new_ids_fit(c: Catalog, count: nat) -> bool {
    &&& max_lemma_id(c.lemmas@) < i64::MAX
    &&& max_form_id(c.forms@) + count <= i64::MAX
    &&& count <= i64::MAX
    &&& 10_000 + ((max_lemma_id(c.lemmas@) + 1) as i32) <= i32::MAX
}

/// What adding a paradigm with lemma `l`-shaped by `lemma_ok` and `count`
/// forms did to the catalogue: everything appended, nothing else touched.
pub open spec fn appended(old_c: Catalog, new_c: Catalog, count: nat) -> bool {
    let n = old_c.forms@.len();
    &&& new_c.lemmas@.len() == old_c.lemmas@.len() + 1
    &&& new_c.lemmas@.drop_last() == old_c.lemmas@
    &&& new_c.custom_lemmas@ == old_c.custom_lemmas@.push(new_c.lemmas@.last())
    &&& new_c.forms@.len() == n + count
    &&& new_c.forms@.take(n as int) == old_c.forms@
    &&& new_c.custom_forms@ == old_c.custom_forms@ + new_c.forms@.skip(n as int)
}

fn max_lemma_id_of(ls: &Vec<Lemma>) -> (r: i64)
    ensures
        r == max_lemma_id(ls@),
{
    let mut best: Option<i64> = None;
    let mut i: usize = 0;
    assert(ls@.take(0) =~= Seq::<Lemma>::empty());
    while i < ls.len()
        invariant
            i <= ls@.len(),
            i == 0 ==> best is None,
            i > 0 ==> best == Some(max_lemma_id(ls@.take(i as int)) as i64),
            i > 0 ==> i64::MIN <= max_lemma_id(ls@.take(i as int)) <= i64::MAX,
        decreases ls.len() - i,
    {
        assert(ls@.take(i + 1).drop_last() =~= ls@.take(i as int));
        let id = ls[i].id;
        best = match best {
            None => Some(id),
            Some(b) => if id > b {
                Some(id)
            } else {
                Some(b)
            },
        };
        i = i + 1;
    }
    assert(ls@.take(ls.len() as int) =~= ls@);
    match best {
        Some(b) => b,
        None => 0,
    }
}

fn max_form_id_of(fs: &Vec<Form>) -> (r: i64)
    ensures
        r == max_form_id(fs@),
{
    let mut best: Option<i64> = None;
    let mut i: usize = 0;
    assert(fs@.take(0) =~= Seq::<Form>::empty());
    while i < fs.len()
        invariant
            i <= fs@.len(),
            i == 0 ==> best is None,
            i > 0 ==> best == Some(max_form_id(fs@.take(i as int)) as i64),
            i > 0 ==> i64::MIN <= max_form_id(fs@.take(i as int)) <= i64::MAX,
        decreases fs.len() - i,
    {
        assert(fs@.take(i + 1).drop_last() =~= fs@.take(i as int));
        let id = fs[i].id;
        best = match best {
            None => Some(id),
            Some(b) => if id > b {
                Some(id)
            } else {
                Some(b)
            },
        };
        i = i + 1;
    }
    assert(fs@.take(fs.len() as int) =~= fs@);
    match best {
        Some(b) => b,
        None => 0,
    }
}

fn trimmed_option(o: &Option<String>) -> (r: Option<String>)
    ensures
        text_view(r) == trimmed_text(*o),
{
    match o {
        Some(v) => {
            let t = trim(v.as_str());
            if t.unicode_len() == 0 {
                None
            } else {
                Some(String::from_str(t))
            }
        },
        None => None,
    }
}

pub(crate) fn is_blank(s: &str) -> (r: bool)
    ensures
        r == blank(s@),
{
    trim(s).unicode_len() == 0
}

fn filled_nominal_entries(es: &Vec<CustomFormEntry>) -> (r: Vec<CustomFormEntry>)
    ensures
        r@ == filled_nominal(es@),
{
    let mut r: Vec<CustomFormEntry> = Vec::new();
    let mut i: usize = 0;
    assert(es@.take(0) =~= Seq::<CustomFormEntry>::empty());
    while i < es.len()
        invariant
            i <= es@.len(),
            r@ == filled_nominal(es@.take(i as int)),
        decreases es.len() - i,
    {
        assert(es@.take(i + 1).drop_last() =~= es@.take(i as int));
        let e = &es[i];
        if !is_blank(e.greek_form.as_str()) {
            r.push(
                CustomFormEntry {
                    case_tag: e.case_tag.clone(),
                    number_tag: e.number_tag.clone(),
                    greek_form: e.greek_form.clone(),
                },
            );
        }
        i = i + 1;
    }
    assert(es@.take(es.len() as int) =~= es@);
    r
}

fn filled_verb_entries(es: &Vec<CustomVerbFormEntry>) -> (r: Vec<CustomVerbFormEntry>)
    ensures
        r@ == filled_verb(es@),
{
    let mut r: Vec<CustomVerbFormEntry> = Vec::new();
    let mut i: usize = 0;
    assert(es@.take(0) =~= Seq::<CustomVerbFormEntry>::empty());
    while i < es.len()
        invariant
            i <= es@.len(),
            r@ == filled_verb(es@.take(i as int)),
        decreases es.len() - i,
    {
        assert(es@.take(i + 1).drop_last() =~= es@.take(i as int));
        let e = &es[i];
        if !is_blank(e.greek_form.as_str()) {
            r.push(
                CustomVerbFormEntry {
                    tense_tag: e.tense_tag.clone(),
                    mood_tag: e.mood_tag.clone(),
                    voice_tag: e.voice_tag.clone(),
                    person_tag: e.person_tag.clone(),
                    number_tag: e.number_tag.clone(),
                    greek_form: e.greek_form.clone(),
                },
            );
        }
        i = i + 1;
    }
    assert(es@.take(es.len() as int) =~= es@);
    r
}

fn custom_lemma(
    id: i64,
    greek: &str,
    translation: &Option<String>,
    pos: &str,
) -> (l: Lemma)
    requires
        10_000 + (id as i32) <= i32::MAX,
    ensures
        custom_lemma_ok(l, id, greek@, *translation, pos@),
{
    Lemma {
        id,
        greek: String::from_str(trim(greek)),
        latin: None,
        english: None,
        russian: trimmed_option(translation),
        part_of_speech: Some(String::from_str(pos)),
        category_id: None,
        lesson_kozar: None,
        lesson_mast: None,
        sort_order: 10_000 + id as i32,
    }
}

fn row_index(index: usize) -> (r: i32)
    ensures
        r == index as i32,
{
    #[verifier::truncate]
    (index as i32)
}

fn nominal_form(
    entry: &CustomFormEntry,
    id: i64,
    lemma_id: i64,
    index: usize,
    pos: &str,
    gender: &Option<String>,
) -> (f: Form)
    ensures
        custom_nominal_form_ok(f, *entry, id as int, lemma_id, index as int, pos@, text_view(*gender)),
{
    let row = row_index(index);
    Form {
        id,
        lemma_id,
        greek_form: String::from_str(trim(entry.greek_form.as_str())),
        transliteration: None,
        category_id: None,
        pos: Some(String::from_str(pos)),
        case_tag: Some(entry.case_tag.clone()),
        number_tag: Some(entry.number_tag.clone()),
        gender_tag: clone_opt_string(gender),
        tense_tag: None,
        voice_tag: None,
        mood_tag: None,
        person_tag: None,
        degree_tag: None,
        decl_type: Some(String::from_str("custom")),
        conj_type: None,
        adj_class: None,
        part_type: None,
        num_type: None,
        pron_type: None,
        lesson_kozar: None,
        lesson_mast: None,
        paradigm_row: Some(row),
        sort_order: row,
        notes: Some(String::from_str("custom")),
    }
}

fn verb_form(entry: &CustomVerbFormEntry, id: i64, lemma_id: i64, index: usize) -> (f: Form)
    ensures
        custom_verb_form_ok(f, *entry, id as int, lemma_id, index as int),
{
    let row = row_index(index);
    Form {
        id,
        lemma_id,
        greek_form: String::from_str(trim(entry.greek_form.as_str())),
        transliteration: None,
        category_id: None,
        pos: Some(String::from_str("verb")),
        case_tag: None,
        number_tag: Some(entry.number_tag.clone()),
        gender_tag: None,
        tense_tag: Some(entry.tense_tag.clone()),
        voice_tag: Some(entry.voice_tag.clone()),
        mood_tag: Some(entry.mood_tag.clone()),
        person_tag: Some(entry.person_tag.clone()),
        degree_tag: None,
        decl_type: None,
        conj_type: Some(String::from_str("custom")),
        adj_class: None,
        part_type: None,
        num_type: None,
        pron_type: None,
        lesson_kozar: None,
        lesson_mast: None,
        paradigm_row: Some(row),
        sort_order: row,
        notes: Some(String::from_str("custom")),
    }
}

impl Catalog {
    /// Adds a noun-like paradigm made by the learner: a new lemma with the
    /// next free id and one form, with the next free ids, per filled cell.
    /// Refused, with the catalogue unchanged, when the headword is blank or
    /// no cell is filled.
    pub fn add_custom_nominal_paradigm(&mut self, draft: CustomNominalParadigmDraft) -> (r: Result<
        (),
        String,
    >)
        requires
            !blank(draft.lemma_greek@) && filled_nominal(draft.entries@).len() > 0 ==> new_ids_fit(
                *old(self),
                filled_nominal(draft.entries@).len(),
            ),
        ensures
            r is Ok <==> !blank(draft.lemma_greek@) && filled_nominal(draft.entries@).len() > 0,
            r matches Err(e) ==> *final(self) == *old(self) && e@ == if blank(
                draft.lemma_greek@,
            ) {
                missing_headword_msg()
            } else {
                empty_nominal_msg()
            },
            r is Ok ==> {
                let kept = filled_nominal(draft.entries@);
                let lid = (max_lemma_id(old(self).lemmas@) + 1) as i64;
                let n = old(self).forms@.len();
                &&& appended(*old(self), *final(self), kept.len())
                &&& custom_lemma_ok(
                    final(self).lemmas@.last(),
                    lid,
                    draft.lemma_greek@,
                    draft.translation,
                    draft.pos@,
                )
                &&& forall|i: int|
                    0 <= i < kept.len() ==> custom_nominal_form_ok(
                        #[trigger] final(self).forms@[n + i],
                        kept[i],
                        max_form_id(old(self).forms@) + 1 + i,
                        lid,
                        i,
                        draft.pos@,
                        trimmed_text(draft.gender),
                    )
            },
    {
        if is_blank(draft.lemma_greek.as_str()) {
            return Err(String::from_str("Укажите заголовочную форму леммы."));
        }
        let entries = filled_nominal_entries(&draft.entries);
        if entries.len() == 0 {
            return Err(String::from_str("Заполните хотя бы одну форму в парадигме."));
        }
        let next_lemma_id = max_lemma_id_of(&self.lemmas) + 1;
        let next_form_id = max_form_id_of(&self.forms) + 1;
        let gender = trimmed_option(&draft.gender);
        let lemma = custom_lemma(
            next_lemma_id,
            draft.lemma_greek.as_str(),
            &draft.translation,
            draft.pos.as_str(),
        );
        let ghost lid = next_lemma_id;
        let mut forms: Vec<Form> = Vec::new();
        let mut index: usize = 0;
        while index < entries.len()
            invariant
                index <= entries@.len(),
                entries@ == filled_nominal(draft.entries@),
                max_form_id(self.forms@) + entries@.len() <= i64::MAX,
                entries@.len() <= i64::MAX,
                next_form_id == max_form_id(self.forms@) + 1,
                lid == next_lemma_id,
                text_view(gender) == trimmed_text(draft.gender),
                forms@.len() == index,
                forall|i: int|
                    0 <= i < index ==> custom_nominal_form_ok(
                        #[trigger] forms@[i],
                        entries@[i],
                        next_form_id + i,
                        lid,
                        i,
                        draft.pos@,
                        trimmed_text(draft.gender),
                    ),
            decreases entries.len() - index,
        {
            let form = nominal_form(
                &entries[index],
                next_form_id + index as i64,
                next_lemma_id,
                index,
                draft.pos.as_str(),
                &gender,
            );
            let ghost prev = forms@;
            forms.push(form);
            assert(forms@[index as int] == form);
            assert(forall|i: int| 0 <= i < index ==> forms@[i] == prev[i]);
            index = index + 1;
        }
        let ghost new_forms = forms@;
        self.add_paradigm(lemma, forms);
        assert(self.lemmas@.drop_last() =~= old(self).lemmas@);
        assert(self.forms@.take(old(self).forms@.len() as int) =~= old(self).forms@);
        assert(self.forms@.skip(old(self).forms@.len() as int) =~= new_forms);
        Ok(())
    }

    /// Adds a verb paradigm made by the learner: a new lemma with the next
    /// free id and one form, with the next free ids, per filled cell.
    /// Refused, with the catalogue unchanged, when the headword is blank or
    /// no cell is filled.
    pub fn add_custom_verb_paradigm(&mut self, draft: CustomVerbParadigmDraft) -> (r: Result<
        (),
        String,
    >)
        requires
            !blank(draft.lemma_greek@) && filled_verb(draft.entries@).len() > 0 ==> new_ids_fit(
                *old(self),
                filled_verb(draft.entries@).len(),
            ),
        ensures
            r is Ok <==> !blank(draft.lemma_greek@) && filled_verb(draft.entries@).len() > 0,
            r matches Err(e) ==> *final(self) == *old(self) && e@ == if blank(
                draft.lemma_greek@,
            ) {
                missing_headword_msg()
            } else {
                empty_verb_msg()
            },
            r is Ok ==> {
                let kept = filled_verb(draft.entries@);
                let lid = (max_lemma_id(old(self).lemmas@) + 1) as i64;
                let n = old(self).forms@.len();
                &&& appended(*old(self), *final(self), kept.len())
                &&& custom_lemma_ok(
                    final(self).lemmas@.last(),
                    lid,
                    draft.lemma_greek@,
                    draft.translation,
                    "verb"@,
                )
                &&& forall|i: int|
                    0 <= i < kept.len() ==> custom_verb_form_ok(
                        #[trigger] final(self).forms@[n + i],
                        kept[i],
                        max_form_id(old(self).forms@) + 1 + i,
                        lid,
                        i,
                    )
            },
    {
        if is_blank(draft.lemma_greek.as_str()) {
            return Err(String::from_str("Укажите заголовочную форму леммы."));
        }
        let entries = filled_verb_entries(&draft.entries);
        if entries.len() == 0 {
            return Err(String::from_str("Заполните хотя бы одну глагольную форму в парадигме."));
        }
        let next_lemma_id = max_lemma_id_of(&self.lemmas) + 1;
        let next_form_id = max_form_id_of(&self.forms) + 1;
        let lemma = custom_lemma(
            next_lemma_id,
            draft.lemma_greek.as_str(),
            &draft.translation,
            "verb",
        );
        let ghost lid = next_lemma_id;
        let mut forms: Vec<Form> = Vec::new();
        let mut index: usize = 0;
        while index < entries.len()
            invariant
                index <= entries@.len(),
                entries@ == filled_verb(draft.entries@),
                max_form_id(self.forms@) + entries@.len() <= i64::MAX,
                entries@.len() <= i64::MAX,
                next_form_id == max_form_id(self.forms@) + 1,
                lid == next_lemma_id,
                forms@.len() == index,
                forall|i: int|
                    0 <= i < index ==> custom_verb_form_ok(
                        #[trigger] forms@[i],
                        entries@[i],
                        next_form_id + i,
                        lid,
                        i,
                    ),
            decreases entries.len() - index,
        {
            let form = verb_form(&entries[index], next_form_id + index as i64, next_lemma_id, index);
            let ghost prev = forms@;
            forms.push(form);
            assert(forms@[index as int] == form);
            assert(forall|i: int| 0 <= i < index ==> forms@[i] == prev[i]);
            index = index + 1;
        }
        let ghost new_forms = forms@;
        self.add_paradigm(lemma, forms);
        assert(self.lemmas@.drop_last() =~= old(self).lemmas@);
        assert(self.forms@.take(old(self).forms@.len() as int) =~= old(self).forms@);
        assert(self.forms@.skip(old(self).forms@.len() as int) =~= new_forms);
        Ok(())
    }

    /// Appends a new lemma and its forms to both the full and the custom
    /// lists.
    fn add_paradigm(&mut self, lemma: Lemma, forms: Vec<Form>)
        ensures
            final(self).lemmas@ == old(self).lemmas@.push(lemma),
            final(self).custom_lemmas@ == old(self).custom_lemmas@.push(lemma),
            final(self).forms@ == old(self).forms@ + forms@,
            final(self).custom_forms@ == old(self).custom_forms@ + forms@,
    {
        self.custom_lemmas.push(lemma.duplicate());
        append_forms(&mut self.custom_forms, &forms);
        self.lemmas.push(lemma);
        append_forms(&mut self.forms, &forms);
    }
}

/// The forms of a part of speech.
pub open spec fn pos_count(forms: Seq<Form>, pos: Seq<char>) -> nat
    decreases forms.len(),
{
    if forms.len() == 0 {
        0
    } else {
        pos_count(forms.drop_last(), pos) + if has_text(forms.last().pos, pos) {
            1nat
        } else {
            0nat
        }
    }
}

/// The forms of a part of speech that have a progress record.
pub open spec fn pos_seen_count(forms: Seq<Form>, pos: Seq<char>, progress: Map<i64, ReviewState>) -> nat
    decreases forms.len(),
{
    if forms.len() == 0 {
        0
    } else {
        pos_seen_count(forms.drop_last(), pos, progress) + if has_text(forms.last().pos, pos)
            && progress.contains_key(forms.last().id) {
            1nat
        } else {
            0nat
        }
    }
}

impl Catalog {
    /// The progress bar of a part of speech: its forms, those seen, and the
    /// percentage seen (0 when it has no forms).
    pub fn pos_progress(&self, pos: &str, progress: &HashMap<i64, ReviewState>) -> (r: (
        usize,
        usize,
        usize,
    ))
        requires
            self.forms@.len() <= usize::MAX / 100,
        ensures
            r.0 == pos_count(self.forms@, pos@),
            r.1 == pos_seen_count(self.forms@, pos@, progress@),
            r.2 == if r.0 > 0 {
                r.1 * 100 / (r.0 as int)
            } else {
                0
            },
    {
        let mut total: usize = 0;
        let mut seen: usize = 0;
        let mut i: usize = 0;
        assert(self.forms@.take(0) =~= Seq::<Form>::empty());
        while i < self.forms.len()
            invariant
                i <= self.forms@.len(),
                total == pos_count(self.forms@.take(i as int), pos@),
                seen == pos_seen_count(self.forms@.take(i as int), pos@, progress@),
                seen <= total,
                total <= i,
            decreases self.forms@.len() - i,
        {
            assert(self.forms@.take(i + 1).drop_last() =~= self.forms@.take(i as int));
            assert(self.forms@.take(i + 1).last() == self.forms@[i as int]);
            if opt_str_is(&self.forms[i].pos, pos) {
                total = total + 1;
                if progress.contains_key(&self.forms[i].id) {
                    seen = seen + 1;
                }
            }
            i = i + 1;
        }
        assert(self.forms@.take(self.forms@.len() as int) =~= self.forms@);
        let pct = if total > 0 {
            seen * 100 / total
        } else {
            0
        };
        (total, seen, pct)
    }
}

// ── Undoing an added paradigm ──────────────────────────────────────────────

proof fn lemma_lemmas_without_absent(s: Seq<Lemma>, id: i64)
    requires
        forall|i: int| 0 <= i < s.len() ==> (#[trigger] s[i]).id != id,
    ensures
        lemmas_without(s, id) == s,
    decreases s.len(),
{
    if s.len() > 0 {
        lemma_lemmas_without_absent(s.drop_last(), id);
        assert(s.drop_last().push(s.last()) =~= s);
    }
}

proof fn lemma_forms_without_absent(s: Seq<Form>, id: i64)
    requires
        forall|i: int| 0 <= i < s.len() ==> (#[trigger] s[i]).lemma_id != id,
    ensures
        forms_without(s, id) == s,
    decreases s.len(),
{
    if s.len() > 0 {
        lemma_forms_without_absent(s.drop_last(), id);
        assert(s.drop_last().push(s.last()) =~= s);
    }
}

proof fn lemma_forms_without_appended(a: Seq<Form>, b: Seq<Form>, id: i64)
    requires
        forall|i: int| 0 <= i < a.len() ==> (#[trigger] a[i]).lemma_id != id,
        forall|i: int| 0 <= i < b.len() ==> (#[trigger] b[i]).lemma_id == id,
    ensures
        forms_without(a + b, id) == a,
    decreases b.len(),
{
    if b.len() == 0 {
        assert(a + b =~= a);
        lemma_forms_without_absent(a, id);
    } else {
        assert((a + b).drop_last() =~= a + b.drop_last());
        assert((a + b).last() == b.last());
        lemma_forms_without_appended(a, b.drop_last(), id);
    }
}

/// Taking out a paradigm just added gives back the catalogue as it was,
/// when nothing in it used the new lemma's id.
pub proof fn lemma_remove_undoes_add(c0: Catalog, c1: Catalog, count: nat, lid: i64)
    requires
        appended(c0, c1, count),
        c1.lemmas@.last().id == lid,
        forall|i: int| 0 <= i < count ==> (#[trigger] c1.forms@[c0.forms@.len() + i]).lemma_id == lid,
        forall|i: int| 0 <= i < c0.lemmas@.len() ==> (#[trigger] c0.lemmas@[i]).id != lid,
        forall|i: int| 0 <= i < c0.custom_lemmas@.len() ==> (#[trigger] c0.custom_lemmas@[i]).id != lid,
        forall|i: int| 0 <= i < c0.forms@.len() ==> (#[trigger] c0.forms@[i]).lemma_id != lid,
        forall|i: int| 0 <= i < c0.custom_forms@.len() ==> (#[trigger] c0.custom_forms@[i]).lemma_id != lid,
    ensures
        lemmas_without(c1.lemmas@, lid) == c0.lemmas@,
        lemmas_without(c1.custom_lemmas@, lid) == c0.custom_lemmas@,
        forms_without(c1.forms@, lid) == c0.forms@,
        forms_without(c1.custom_forms@, lid) == c0.custom_forms@,
{
    let n = c0.forms@.len();
    lemma_lemmas_without_absent(c0.lemmas@, lid);
    lemma_lemmas_without_absent(c0.custom_lemmas@, lid);
    assert(c1.custom_lemmas@.drop_last() =~= c0.custom_lemmas@);
    assert(c1.custom_lemmas@.last() == c1.lemmas@.last());
    let added = c1.forms@.skip(n as int);
    assert forall|i: int| 0 <= i < added.len() implies (#[trigger] added[i]).lemma_id == lid by {
        assert(added[i] == c1.forms@[n + i]);
    }
    assert(c1.forms@ =~= c0.forms@ + added);
    lemma_forms_without_appended(c0.forms@, added, lid);
    lemma_forms_without_appended(c0.custom_forms@, added, lid);
}

proof fn lemma_selected_forms_contains(
    forms: Seq<Form>,
    filter: FilterParams,
    include_dual: bool,
    progress: Map<i64, ReviewState>,
    now: i64,
    f: Form,
)
    ensures
        selected_forms(forms, filter, include_dual, progress, now).contains(f) <==> (forms.contains(f)
            && selected(f, filter, include_dual, progress, now)),
    decreases forms.len(),
{
    if forms.len() > 0 {
        let d = forms.drop_last();
        lemma_selected_forms_contains(d, filter, include_dual, progress, now, f);
        let prev = selected_forms(d, filter, include_dual, progress, now);
        let r = selected_forms(forms, filter, include_dual, progress, now);
        assert(forms =~= d.push(forms.last()));
        if r.contains(f) {
            let k = choose|k: int| 0 <= k < r.len() && r[k] == f;
            if k < prev.len() {
                assert(prev[k] == f);
                let m = choose|m: int| 0 <= m < d.len() && d[m] == f;
                assert(forms[m] == f);
            }
        }
        if forms.contains(f) && selected(f, filter, include_dual, progress, now) {
            let m = choose|m: int| 0 <= m < forms.len() && forms[m] == f;
            if m < d.len() {
                assert(d[m] == f);
                let k = choose|k: int| 0 <= k < prev.len() && prev[k] == f;
                assert(r[k] == f);
            } else {
                assert(r[prev.len() as int] == f);
            }
        }
    }
}

/// Asking for due forms only keeps, of the forms the drill would take
/// otherwise, those that have no progress record yet and those whose
/// record was never scheduled or whose review time has come: a form never
/// studied is always kept.
pub proof fn lemma_only_due_keeps_new_forms(
    forms: Seq<Form>,
    filter: FilterParams,
    include_dual: bool,
    progress: Map<i64, ReviewState>,
    now: i64,
    f: Form,
)
    ensures
        selected_forms(forms, FilterParams { only_due: true, ..filter }, include_dual, progress, now).contains(f)
            <==> (selected_forms(
            forms,
            FilterParams { only_due: false, ..filter },
            include_dual,
            progress,
            now,
        ).contains(f) && (!progress.contains_key(f.id) || progress[f.id].next_review == 0
            || progress[f.id].next_review <= now)),
        !progress.contains_key(f.id) ==> (selected_forms(
            forms,
            FilterParams { only_due: true, ..filter },
            include_dual,
            progress,
            now,
        ).contains(f) <==> selected_forms(
            forms,
            FilterParams { only_due: false, ..filter },
            include_dual,
            progress,
            now,
        ).contains(f)),
{
    lemma_selected_forms_contains(forms, FilterParams { only_due: true, ..filter }, include_dual, progress, now, f);
    lemma_selected_forms_contains(forms, FilterParams { only_due: false, ..filter }, include_dual, progress, now, f);
}

/// Leaving out learned forms drops, of the forms the drill would take
/// otherwise, exactly those whose record has a streak of at least five:
/// a form never studied is always kept.
pub proof fn lemma_exclude_learned(
    forms: Seq<Form>,
    filter: FilterParams,
    include_dual: bool,
    progress: Map<i64, ReviewState>,
    now: i64,
    f: Form,
)
    ensures
        selected_forms(
            forms,
            FilterParams { exclude_learned: true, ..filter },
            include_dual,
            progress,
            now,
        ).contains(f) <==> (selected_forms(
            forms,
            FilterParams { exclude_learned: false, ..filter },
            include_dual,
            progress,
            now,
        ).contains(f) && !(progress.contains_key(f.id) && progress[f.id].streak >= 5)),
{
    lemma_selected_forms_contains(
        forms,
        FilterParams { exclude_learned: true, ..filter },
        include_dual,
        progress,
        now,
        f,
    );
    lemma_selected_forms_contains(
        forms,
        FilterParams { exclude_learned: false, ..filter },
        include_dual,
        progress,
        now,
        f,
    );
}

/// Without the dual, a drill takes the forms it would take with it, less
/// those whose number is the dual.
pub proof fn lemma_dual_left_out(
    forms: Seq<Form>,
    filter: FilterParams,
    progress: Map<i64, ReviewState>,
    now: i64,
    f: Form,
)
    ensures
        selected_forms(forms, filter, false, progress, now).contains(f) <==> (selected_forms(
            forms,
            filter,
            true,
            progress,
            now,
        ).contains(f) && !(f.number_tag is Some && f.number_tag.unwrap()@ == "du"@)),
{
    lemma_selected_forms_contains(forms, filter, false, progress, now, f);
    lemma_selected_forms_contains(forms, filter, true, progress, now, f);
}

} // verus!

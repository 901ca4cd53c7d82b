//! Study filters: which forms take part in a drill.
use vstd::prelude::*;

use crate::form::Form;
use crate::text::{str_eq, string_views};

verus! {

/// Filter parameters for selecting forms to study. An empty list means
/// "no restriction" for that field.
#[derive(Debug, Clone, PartialEq)]
pub struct FilterParams {
    pub pos: Vec<String>,
    pub category_ids: Vec<i64>,
    pub lemma_ids: Vec<i64>,
    pub cases: Vec<String>,
    pub numbers: Vec<String>,
    pub genders: Vec<String>,
    pub tenses: Vec<String>,
    pub voices: Vec<String>,
    pub moods: Vec<String>,
    pub persons: Vec<String>,
    pub degrees: Vec<String>,
    pub decl_types: Vec<String>,
    pub conj_types: Vec<String>,
    pub lesson_kozar_max: Option<i32>,
    pub lesson_mast_max: Option<i32>,
    /// Only forms that are due for review (next_review <= now).
    pub only_due: bool,
    /// Exclude forms the user has already learned (streak >= 5).
    pub exclude_learned: bool,
}

/// Some string of `v` reads `t`.
pub open spec fn texts_contain(v: Seq<String>, t: Seq<char>) -> bool {
    exists|i: int| 0 <= i < v.len() && (#[trigger] v[i])@ == t
}

/// A tag restriction: no restriction, or the tag is present and listed.
pub open spec fn tag_allowed(allowed: Seq<String>, tag: Option<String>) -> bool {
    allowed.len() == 0 || (tag matches Some(t) && texts_contain(allowed, t@))
}

/// A lesson limit: no limit, or the lesson is known and at most the limit.
pub open spec fn lesson_allowed(max: Option<i32>, lesson: Option<i32>) -> bool {
    match max {
        None => true,
        Some(m) => lesson matches Some(l) && l <= m,
    }
}

/// The part of speech of a form, empty when unknown.
pub open spec fn pos_text(f: Form) -> Seq<char> {
    match f.pos {
        Some(p) => p@,
        None => Seq::empty(),
    }
}

/// The category of a form, 0 when unknown.
pub open spec fn category_or_zero(f: Form) -> i64 {
    match f.category_id {
        Some(c) => c,
        None => 0,
    }
}

/// Whether a form passes every restriction of the filter (the progress
/// switches `only_due` and `exclude_learned` are not part of this).
pub open spec fn filter_matches(p: FilterParams, f: Form) -> bool {
    &&& (p.pos@.len() == 0 || texts_contain(p.pos@, pos_text(f)))
    &&& (p.category_ids@.len() == 0 || p.category_ids@.contains(category_or_zero(f)))
    &&& (p.lemma_ids@.len() == 0 || p.lemma_ids@.contains(f.lemma_id))
    &&& tag_allowed(p.cases@, f.case_tag)
    &&& tag_allowed(p.numbers@, f.number_tag)
    &&& tag_allowed(p.genders@, f.gender_tag)
    &&& tag_allowed(p.tenses@, f.tense_tag)
    &&& tag_allowed(p.voices@, f.voice_tag)
    &&& tag_allowed(p.moods@, f.mood_tag)
    &&& tag_allowed(p.persons@, f.person_tag)
    &&& tag_allowed(p.degrees@, f.degree_tag)
    &&& tag_allowed(p.decl_types@, f.decl_type)
    &&& tag_allowed(p.conj_types@, f.conj_type)
    &&& lesson_allowed(p.lesson_kozar_max, f.lesson_kozar)
    &&& lesson_allowed(p.lesson_mast_max, f.lesson_mast)
}

/// Whether some string of `v` equals `t`.
pub fn strings_contain(v: &Vec<String>, t: &str) -> (r: bool)
    ensures
        r == texts_contain(v@, t@),
{
    let mut i: usize = 0;
    while i < v.len()
        invariant
            i <= v.len(),
            forall|j: int| 0 <= j < i ==> (#[trigger] v@[j])@ != t@,
        decreases v.len() - i,
    {
        if str_eq(v[i].as_str(), t) {
            return true;
        }
        i = i + 1;
    }
    false
}

/// Whether `x` is an element of `v`.
pub fn ids_contain(v: &Vec<i64>, x: i64) -> (r: bool)
    ensures
        r == v@.contains(x),
{
    let mut i: usize = 0;
    while i < v.len()
        invariant
            i <= v.len(),
            forall|j: int| 0 <= j < i ==> v@[j] != x,
        decreases v.len() - i,
    {
        if v[i] == x {
            return true;
        }
        i = i + 1;
    }
    false
}

fn tag_ok(allowed: &Vec<String>, tag: &Option<String>) -> (r: bool)
    ensures
        r == tag_allowed(allowed@, *tag),
{
    if allowed.len() == 0 {
        return true;
    }
    match tag {
        Some(t) => strings_contain(allowed, t.as_str()),
        None => false,
    }
}

fn lesson_ok(max: Option<i32>, lesson: Option<i32>) -> (r: bool)
    ensures
        r == lesson_allowed(max, lesson),
{
    match max {
        None => true,
        Some(m) => match lesson {
            Some(l) => l <= m,
            None => false,
        },
    }
}

/// The filter that selects everything.
pub open spec fn unrestricted(p: FilterParams) -> bool {
    &&& p.pos@.len() == 0
    &&& p.category_ids@.len() == 0
    &&& p.lemma_ids@.len() == 0
    &&& p.cases@.len() == 0
    &&& p.numbers@.len() == 0
    &&& p.genders@.len() == 0
    &&& p.tenses@.len() == 0
    &&& p.voices@.len() == 0
    &&& p.moods@.len() == 0
    &&& p.persons@.len() == 0
    &&& p.degrees@.len() == 0
    &&& p.decl_types@.len() == 0
    &&& p.conj_types@.len() == 0
    &&& p.lesson_kozar_max is None
    &&& p.lesson_mast_max is None
    &&& !p.only_due
    &&& !p.exclude_learned
}

impl Default for FilterParams {
    fn default() -> (r: FilterParams)
        ensures
            unrestricted(r),
    {
        FilterParams {
            pos: Vec::new(),
            category_ids: Vec::new(),
            lemma_ids: Vec::new(),
            cases: Vec::new(),
            numbers: Vec::new(),
            genders: Vec::new(),
            tenses: Vec::new(),
            voices: Vec::new(),
            moods: Vec::new(),
            persons: Vec::new(),
            degrees: Vec::new(),
            decl_types: Vec::new(),
            conj_types: Vec::new(),
            lesson_kozar_max: None,
            lesson_mast_max: None,
            only_due: false,
            exclude_learned: false,
        }
    }
}

impl FilterParams {
    /// Adds a part of speech to the allowed ones.
    pub fn with_pos(self, pos: String) -> (r: FilterParams)
        ensures
            r.pos@ == self.pos@.push(pos),
            r == (FilterParams { pos: r.pos, ..self }),
    {
        let mut s = self;
        s.pos.push(pos);
        s
    }

    /// Adds a case to the allowed ones.
    pub fn with_case(self, c: String) -> (r: FilterParams)
        ensures
            r.cases@ == self.cases@.push(c),
            r == (FilterParams { cases: r.cases, ..self }),
    {
        let mut s = self;
        s.cases.push(c);
        s
    }

    /// Keeps only forms due for review.
    pub fn only_due(self) -> (r: FilterParams)
        ensures
            r == (FilterParams { only_due: true, ..self }),
    {
        let mut s = self;
        s.only_due = true;
        s
    }

    /// Leaves out forms already learned.
    pub fn exclude_learned(self) -> (r: FilterParams)
        ensures
            r == (FilterParams { exclude_learned: true, ..self }),
    {
        let mut s = self;
        s.exclude_learned = true;
        s
    }

    /// Returns true if the given form matches all set filters.
    pub fn matches_form(&self, form: &Form) -> (r: bool)
        ensures
            r == filter_matches(*self, *form),
    {
        if self.pos.len() != 0 {
            let fpos: &str = match &form.pos {
                Some(p) => p.as_str(),
                None => {
                    proof {
                        reveal_strlit("");
                    }
                    assert(""@ =~= Seq::<char>::empty());
                    ""
                },
            };
            assert(fpos@ == pos_text(*form));
            if !strings_contain(&self.pos, fpos) {
                return false;
            }
        }
        if self.category_ids.len() != 0 {
            let fcat = match form.category_id {
                Some(c) => c,
                None => 0,
            };
            assert(fcat == category_or_zero(*form));
            if !ids_contain(&self.category_ids, fcat) {
                return false;
            }
        }
        if self.lemma_ids.len() != 0 && !ids_contain(&self.lemma_ids, form.lemma_id) {
            return false;
        }
        tag_ok(&self.cases, &form.case_tag) && tag_ok(&self.numbers, &form.number_tag) && tag_ok(
            &self.genders,
            &form.gender_tag,
        ) && tag_ok(&self.tenses, &form.tense_tag) && tag_ok(&self.voices, &form.voice_tag)
            && tag_ok(&self.moods, &form.mood_tag) && tag_ok(&self.persons, &form.person_tag)
            && tag_ok(&self.degrees, &form.degree_tag) && tag_ok(&self.decl_types, &form.decl_type)
            && tag_ok(&self.conj_types, &form.conj_type) && lesson_ok(
            self.lesson_kozar_max,
            form.lesson_kozar,
        ) && lesson_ok(self.lesson_mast_max, form.lesson_mast)
    }
}

/// The unrestricted filter lets every form through.
pub proof fn lemma_unrestricted_matches_all(p: FilterParams, f: Form)
    requires
        unrestricted(p),
    ensures
        filter_matches(p, f),
{
}

/// `ids` without `id`.
pub open spec fn ids_without(ids: Seq<i64>, id: i64) -> Seq<i64>
    decreases ids.len(),
{
    if ids.len() == 0 {
        Seq::empty()
    } else {
        let prev = ids_without(ids.drop_last(), id);
        if ids.last() != id {
            prev.push(ids.last())
        } else {
            prev
        }
    }
}

/// The ids other than `id`, in order.
pub fn ids_other_than(ids: &Vec<i64>, id: i64) -> (r: Vec<i64>)
    ensures
        r@ == ids_without(ids@, id),
{
    let mut r: Vec<i64> = Vec::new();
    let mut i: usize = 0;
    assert(ids@.take(0) =~= Seq::<i64>::empty());
    while i < ids.len()
        invariant
            i <= ids@.len(),
            r@ == ids_without(ids@.take(i as int), id),
        decreases ids.len() - i,
    {
        assert(ids@.take(i + 1).drop_last() =~= ids@.take(i as int));
        if ids[i] != id {
            r.push(ids[i]);
        }
        i = i + 1;
    }
    assert(ids@.take(ids.len() as int) =~= ids@);
    r
}

/// The texts other than `x`, in order.
pub open spec fn texts_without(s: Seq<Seq<char>>, x: Seq<char>) -> Seq<Seq<char>>
    decreases s.len(),
{
    if s.len() == 0 {
        Seq::empty()
    } else {
        let prev = texts_without(s.drop_last(), x);
        if s.last() != x {
            prev.push(s.last())
        } else {
            prev
        }
    }
}

/// A chip toggled: a listed value is removed wherever it occurs, another is
/// added at the end.
pub open spec fn toggled_text(s: Seq<Seq<char>>, x: Seq<char>) -> Seq<Seq<char>> {
    if s.contains(x) {
        texts_without(s, x)
    } else {
        s.push(x)
    }
}

/// An id chip toggled: a listed id is removed wherever it occurs, another is
/// added at the end.
pub open spec fn toggled_id(s: Seq<i64>, x: i64) -> Seq<i64> {
    if s.contains(x) {
        ids_without(s, x)
    } else {
        s.push(x)
    }
}

fn strings_other_than(v: &Vec<String>, x: &str) -> (r: Vec<String>)
    ensures
        string_views(r@) == texts_without(string_views(v@), x@),
{
    let ghost s = string_views(v@);
    let mut r: Vec<String> = Vec::new();
    let mut i: usize = 0;
    assert(s.take(0) =~= Seq::<Seq<char>>::empty());
    assert(string_views(r@) =~= Seq::<Seq<char>>::empty());
    while i < v.len()
        invariant
            s == string_views(v@),
            i <= v@.len(),
            string_views(r@) == texts_without(s.take(i as int), x@),
        decreases v@.len() - i,
    {
        assert(s.take(i + 1).drop_last() =~= s.take(i as int));
        assert(s.take(i + 1).last() == v@[i as int]@);
        if !str_eq(v[i].as_str(), x) {
            let ghost prev = string_views(r@);
            r.push(v[i].clone());
            assert(string_views(r@) =~= prev.push(v@[i as int]@));
        }
        i = i + 1;
    }
    assert(s.take(v@.len() as int) =~= s);
    r
}

/// Toggle a text chip.
pub fn toggle_text(list: &mut Vec<String>, value: &str)
    ensures
        string_views(final(list)@) == toggled_text(string_views(old(list)@), value@),
{
    let ghost s = string_views(list@);
    let present = strings_contain(list, value);
    proof {
        if texts_contain(list@, value@) {
            let j = choose|j: int| 0 <= j < list@.len() && (#[trigger] list@[j])@ == value@;
            assert(s[j] == value@);
        }
        if s.contains(value@) {
            let j = choose|j: int| 0 <= j < s.len() && s[j] == value@;
            assert(list@[j]@ == value@);
        }
    }
    if present {
        let kept = strings_other_than(list, value);
        *list = kept;
    } else {
        list.push(String::from_str(value));
        assert(string_views(list@) =~= s.push(value@));
    }
}

/// Toggle an id chip.
pub fn toggle_id(list: &mut Vec<i64>, id: i64)
    ensures
        final(list)@ == toggled_id(old(list)@, id),
{
    if ids_contain(list, id) {
        let kept = ids_other_than(list, id);
        *list = kept;
    } else {
        list.push(id);
    }
}

proof fn lemma_texts_without_absent(s: Seq<Seq<char>>, x: Seq<char>)
    requires
        !s.contains(x),
    ensures
        texts_without(s, x) == s,
    decreases s.len(),
{
    if s.len() > 0 {
        assert(!s.drop_last().contains(x)) by {
            if s.drop_last().contains(x) {
                let j = choose|j: int| 0 <= j < s.drop_last().len() && s.drop_last()[j] == x;
                assert(s[j] == x);
            }
        }
        lemma_texts_without_absent(s.drop_last(), x);
        assert(s.last() != x) by {
            assert(s[s.len() - 1] == s.last());
        }
        assert(s.drop_last().push(s.last()) =~= s);
    }
}

/// Toggling a chip that was off, then toggling it again, gives back the
/// list as it was; a toggled-off value is no longer listed.
pub proof fn lemma_toggle_text_twice(s: Seq<Seq<char>>, x: Seq<char>)
    ensures
        !s.contains(x) ==> toggled_text(toggled_text(s, x), x) == s,
        s.contains(x) ==> !toggled_text(s, x).contains(x),
{
    if !s.contains(x) {
        let t = s.push(x);
        assert(t.contains(x)) by {
            assert(t[s.len() as int] == x);
        }
        assert(t.drop_last() =~= s);
        lemma_texts_without_absent(s, x);
    } else {
        lemma_texts_without_drops(s, x);
    }
}

proof fn lemma_texts_without_drops(s: Seq<Seq<char>>, x: Seq<char>)
    ensures
        !texts_without(s, x).contains(x),
    decreases s.len(),
{
    if s.len() > 0 {
        lemma_texts_without_drops(s.drop_last(), x);
        let prev = texts_without(s.drop_last(), x);
        let r = texts_without(s, x);
        if r.contains(x) {
            let j = choose|j: int| 0 <= j < r.len() && r[j] == x;
            if j < prev.len() {
                assert(r[j] == prev[j]);
            }
        }
    }
}

/// The tag list edited by a chip row: tense, case, number, person, voice
/// or mood; any other name edits the tenses.
pub open spec fn tag_list_of(p: FilterParams, field: Seq<char>) -> Vec<String> {
    if field == "case"@ {
        p.cases
    } else if field == "number"@ {
        p.numbers
    } else if field == "person"@ {
        p.persons
    } else if field == "voice"@ {
        p.voices
    } else if field == "mood"@ {
        p.moods
    } else {
        p.tenses
    }
}

/// `p` with the tag list of `field` replaced by `v`.
pub open spec fn with_tag_list(p: FilterParams, field: Seq<char>, v: Vec<String>) -> FilterParams {
    if field == "case"@ {
        FilterParams { cases: v, ..p }
    } else if field == "number"@ {
        FilterParams { numbers: v, ..p }
    } else if field == "person"@ {
        FilterParams { persons: v, ..p }
    } else if field == "voice"@ {
        FilterParams { voices: v, ..p }
    } else if field == "mood"@ {
        FilterParams { moods: v, ..p }
    } else {
        FilterParams { tenses: v, ..p }
    }
}

/// The tag list a chip row shows.
pub fn tag_field<'a>(f: &'a FilterParams, field: &str) -> (r: &'a Vec<String>)
    ensures
        *r == tag_list_of(*f, field@),
{
    if str_eq(field, "case") {
        &f.cases
    } else if str_eq(field, "number") {
        &f.numbers
    } else if str_eq(field, "person") {
        &f.persons
    } else if str_eq(field, "voice") {
        &f.voices
    } else if str_eq(field, "mood") {
        &f.moods
    } else {
        &f.tenses
    }
}

/// The tag list a chip row edits.
pub fn tag_field_mut<'a>(f: &'a mut FilterParams, field: &str) -> (r: &'a mut Vec<String>)
    ensures
        *r == tag_list_of(*old(f), field@),
        *final(f) == with_tag_list(*old(f), field@, *final(r)),
{
    if str_eq(field, "case") {
        &mut f.cases
    } else if str_eq(field, "number") {
        &mut f.numbers
    } else if str_eq(field, "person") {
        &mut f.persons
    } else if str_eq(field, "voice") {
        &mut f.voices
    } else if str_eq(field, "mood") {
        &mut f.moods
    } else {
        &mut f.tenses
    }
}

impl FilterParams {
    /// Toggle a part-of-speech chip.
    pub fn toggle_pos(&mut self, value: &str)
        ensures
            string_views(final(self).pos@) == toggled_text(string_views(old(self).pos@), value@),
            *final(self) == (FilterParams { pos: final(self).pos, ..*old(self) }),
    {
        toggle_text(&mut self.pos, value);
    }

    /// Toggle a chip of a tag row (tense, case, number, person, voice, mood).
    pub fn toggle_tag(&mut self, field: &str, value: &str)
        ensures
            string_views(tag_list_of(*final(self), field@)@) == toggled_text(
                string_views(tag_list_of(*old(self), field@)@),
                value@,
            ),
            exists|v: Vec<String>| *final(self) == with_tag_list(*old(self), field@, v),
    {
        let list = tag_field_mut(self, field);
        toggle_text(list, value);
    }

    /// Toggle a lemma in the lemma filter.
    pub fn toggle_lemma(&mut self, id: i64)
        ensures
            final(self).lemma_ids@ == toggled_id(old(self).lemma_ids@, id),
            *final(self) == (FilterParams { lemma_ids: final(self).lemma_ids, ..*old(self) }),
    {
        toggle_id(&mut self.lemma_ids, id);
    }

    /// The tense, person, voice and mood chips are offered: verbs are
    /// selected.
    pub fn shows_verb_chips(&self) -> (r: bool)
        ensures
            r == texts_contain(self.pos@, "verb"@),
    {
        strings_contain(&self.pos, "verb")
    }

    /// The case and number chips are offered: a declined part of speech
    /// (noun, adjective, pronoun or article) is selected.
    pub fn shows_case_chips(&self) -> (r: bool)
        ensures
            r == (texts_contain(self.pos@, "noun"@) || texts_contain(self.pos@, "adj"@)
                || texts_contain(self.pos@, "pronoun"@) || texts_contain(self.pos@, "article"@)),
    {
        strings_contain(&self.pos, "noun") || strings_contain(&self.pos, "adj") || strings_contain(
            &self.pos,
            "pronoun",
        ) || strings_contain(&self.pos, "article")
    }

    /// Take a lemma out of the lemma filter.
    pub fn remove_lemma(&mut self, id: i64)
        ensures
            final(self).lemma_ids@ == ids_without(old(self).lemma_ids@, id),
            *final(self) == (FilterParams { lemma_ids: final(self).lemma_ids, ..*old(self) }),
    {
        let kept = ids_other_than(&self.lemma_ids, id);
        self.lemma_ids = kept;
    }
}

/// A lesson limit keeps exactly the forms whose lesson is known and at most
/// the limit, the limit lesson included: with a limit `m` on either lesson
/// numbering, a form passes iff it passes without that limit and its lesson
/// in that numbering is some `l <= m`.
pub proof fn lemma_lesson_limits(p: FilterParams, f: Form, m: i32)
    ensures
        filter_matches(FilterParams { lesson_kozar_max: Some(m), ..p }, f) <==> (filter_matches(
            FilterParams { lesson_kozar_max: None, ..p },
            f,
        ) && f.lesson_kozar is Some && f.lesson_kozar.unwrap() <= m),
        filter_matches(FilterParams { lesson_mast_max: Some(m), ..p }, f) <==> (filter_matches(
            FilterParams { lesson_mast_max: None, ..p },
            f,
        ) && f.lesson_mast is Some && f.lesson_mast.unwrap() <= m),
{
}

/// Each list of the filter restricts one field and nothing else: with an
/// empty list a form passes as it would without the list, and with a
/// non-empty one it passes iff it would pass without the list and its field
/// is present and listed (an unknown part of speech reads as empty).
pub proof fn lemma_tag_lists(p: FilterParams, f: Form, v: Vec<String>, none: Vec<String>)
    requires
        none@.len() == 0,
    ensures
        filter_matches(FilterParams { cases: v, ..p }, f) <==> (filter_matches(FilterParams { cases: none, ..p }, f)
            && (v@.len() == 0 || (f.case_tag is Some && exists|i: int|
            0 <= i < v@.len() && (#[trigger] v@[i])@ == f.case_tag.unwrap()@))),
        filter_matches(FilterParams { numbers: v, ..p }, f) <==> (filter_matches(FilterParams { numbers: none, ..p }, f)
            && (v@.len() == 0 || (f.number_tag is Some && exists|i: int|
            0 <= i < v@.len() && (#[trigger] v@[i])@ == f.number_tag.unwrap()@))),
        filter_matches(FilterParams { genders: v, ..p }, f) <==> (filter_matches(FilterParams { genders: none, ..p }, f)
            && (v@.len() == 0 || (f.gender_tag is Some && exists|i: int|
            0 <= i < v@.len() && (#[trigger] v@[i])@ == f.gender_tag.unwrap()@))),
        filter_matches(FilterParams { tenses: v, ..p }, f) <==> (filter_matches(FilterParams { tenses: none, ..p }, f)
            && (v@.len() == 0 || (f.tense_tag is Some && exists|i: int|
            0 <= i < v@.len() && (#[trigger] v@[i])@ == f.tense_tag.unwrap()@))),
        filter_matches(FilterParams { voices: v, ..p }, f) <==> (filter_matches(FilterParams { voices: none, ..p }, f)
            && (v@.len() == 0 || (f.voice_tag is Some && exists|i: int|
            0 <= i < v@.len() && (#[trigger] v@[i])@ == f.voice_tag.unwrap()@))),
        filter_matches(FilterParams { moods: v, ..p }, f) <==> (filter_matches(FilterParams { moods: none, ..p }, f)
            && (v@.len() == 0 || (f.mood_tag is Some && exists|i: int|
            0 <= i < v@.len() && (#[trigger] v@[i])@ == f.mood_tag.unwrap()@))),
        filter_matches(FilterParams { persons: v, ..p }, f) <==> (filter_matches(FilterParams { persons: none, ..p }, f)
            && (v@.len() == 0 || (f.person_tag is Some && exists|i: int|
            0 <= i < v@.len() && (#[trigger] v@[i])@ == f.person_tag.unwrap()@))),
        filter_matches(FilterParams { degrees: v, ..p }, f) <==> (filter_matches(FilterParams { degrees: none, ..p }, f)
            && (v@.len() == 0 || (f.degree_tag is Some && exists|i: int|
            0 <= i < v@.len() && (#[trigger] v@[i])@ == f.degree_tag.unwrap()@))),
        filter_matches(FilterParams { decl_types: v, ..p }, f) <==> (filter_matches(FilterParams { decl_types: none, ..p }, f)
            && (v@.len() == 0 || (f.decl_type is Some && exists|i: int|
            0 <= i < v@.len() && (#[trigger] v@[i])@ == f.decl_type.unwrap()@))),
        filter_matches(FilterParams { conj_types: v, ..p }, f) <==> (filter_matches(FilterParams { conj_types: none, ..p }, f)
            && (v@.len() == 0 || (f.conj_type is Some && exists|i: int|
            0 <= i < v@.len() && (#[trigger] v@[i])@ == f.conj_type.unwrap()@))),
        filter_matches(FilterParams { pos: v, ..p }, f) <==> (filter_matches(FilterParams { pos: none, ..p }, f)
            && (v@.len() == 0 || exists|i: int|
            0 <= i < v@.len() && (#[trigger] v@[i])@ == (if f.pos is Some { f.pos.unwrap()@ } else { Seq::empty() }))),
{
}

/// The lemma and category lists restrict one field each: a form passes iff
/// it passes without the list and the list is empty or holds its lemma (its
/// category, 0 when unknown).
pub proof fn lemma_id_lists(p: FilterParams, f: Form, v: Vec<i64>, none: Vec<i64>)
    requires
        none@.len() == 0,
    ensures
        filter_matches(FilterParams { lemma_ids: v, ..p }, f) <==> (filter_matches(
            FilterParams { lemma_ids: none, ..p },
            f,
        ) && (v@.len() == 0 || v@.contains(f.lemma_id))),
        filter_matches(FilterParams { category_ids: v, ..p }, f) <==> (filter_matches(
            FilterParams { category_ids: none, ..p },
            f,
        ) && (v@.len() == 0 || v@.contains(if f.category_id is Some { f.category_id.unwrap() } else { 0 }))),
{
}

} // verus!

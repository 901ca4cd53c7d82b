//! The editor of custom paradigms: the map of cell texts it edits, the keys
//! of its cells, its option lists, and what it starts with when a saved
//! paradigm is opened again.
use vstd::prelude::*;

use crate::catalog::{
    blank, find_lemma, first_lemma_with_id, is_blank, CustomFormEntry, CustomNominalParadigmDraft,
    CustomVerbFormEntry, CustomVerbParadigmDraft,
};
use crate::filter::{strings_contain, texts_contain};
use crate::form::{Form, Lemma};
use crate::text::{
    has_text, join_seqs, join_strs, opt_str_is, str_eq, str_views, string_views, text_of,
    text_or_empty,
};

verus! {

// ── Cell map ───────────────────────────────────────────────────────────────

/// The text stored under `k`: that of the first entry with key `k`.
pub open spec fn assoc_lookup(s: Seq<(Seq<char>, Seq<char>)>, k: Seq<char>) -> Option<Seq<char>>
    decreases s.len(),
{
    if s.len() == 0 {
        None
    } else if s[0].0 == k {
        Some(s[0].1)
    } else {
        assoc_lookup(s.drop_first(), k)
    }
}

/// The entries with the text under `k` set to `v`: the first entry with key
/// `k` takes the new text, or a new entry is added at the end.
pub open spec fn assoc_insert(s: Seq<(Seq<char>, Seq<char>)>, k: Seq<char>, v: Seq<char>) -> Seq<
    (Seq<char>, Seq<char>),
>
    decreases s.len(),
{
    if s.len() == 0 {
        seq![(k, v)]
    } else if s[0].0 == k {
        s.update(0, (k, v))
    } else {
        seq![s[0]] + assoc_insert(s.drop_first(), k, v)
    }
}

/// The texts typed into the cells of the editor, as (key, text) entries in
/// the order the cells were first set.
pub struct CellMap {
    entries: Vec<(String, String)>,
}

impl View for CellMap {
    type V = Seq<(Seq<char>, Seq<char>)>;

    closed spec fn view(&self) -> Seq<(Seq<char>, Seq<char>)> {
        Seq::new(self.entries@.len(), |i: int| (self.entries@[i].0@, self.entries@[i].1@))
    }
}

impl CellMap {
    /// An empty map.
    pub fn new() -> (r: CellMap)
        ensures
            r@ == Seq::<(Seq<char>, Seq<char>)>::empty(),
    {
        let r = CellMap { entries: Vec::new() };
        assert(r@ =~= Seq::<(Seq<char>, Seq<char>)>::empty());
        r
    }

    /// The number of cells set.
    pub fn len(&self) -> (r: usize)
        ensures
            r == self@.len(),
    {
        self.entries.len()
    }

    /// The key and text of the `i`-th entry.
    pub fn entry(&self, i: usize) -> (r: (&String, &String))
        requires
            i < self@.len(),
        ensures
            (r.0@, r.1@) == self@[i as int],
    {
        (&self.entries[i].0, &self.entries[i].1)
    }

    fn position(&self, key: &str) -> (r: Option<usize>)
        ensures
            match r {
                Some(i) => i < self@.len() && self@[i as int].0 == key@ && forall|j: int|
                    0 <= j < i ==> self@[j].0 != key@,
                None => forall|j: int| 0 <= j < self@.len() ==> self@[j].0 != key@,
            },
    {
        let mut i: usize = 0;
        while i < self.entries.len()
            invariant
                i <= self@.len(),
                self@.len() == self.entries@.len(),
                forall|j: int| 0 <= j < i ==> self@[j].0 != key@,
            decreases self.entries@.len() - i,
        {
            if str_eq(self.entries[i].0.as_str(), key) {
                return Some(i);
            }
            i = i + 1;
        }
        None
    }

    /// The text of a cell, if one was set.
    pub fn get(&self, key: &str) -> (r: Option<&String>)
        ensures
            match r {
                Some(v) => assoc_lookup(self@, key@) == Some(v@),
                None => assoc_lookup(self@, key@) is None,
            },
    {
        let p = self.position(key);
        proof {
            lemma_lookup_position(self@, key@, p);
        }
        match p {
            Some(i) => Some(&self.entries[i].1),
            None => None,
        }
    }

    /// Set the text of a cell, replacing any text it had.
    pub fn insert(&mut self, key: String, value: String)
        ensures
            final(self)@ == assoc_insert(old(self)@, key@, value@),
    {
        let ghost s0 = self@;
        let p = self.position(key.as_str());
        proof {
            lemma_insert_position(s0, key@, value@, p);
        }
        match p {
            Some(i) => {
                self.entries.set(i, (key, value));
                assert(self@ =~= s0.update(i as int, (key@, value@)));
            },
            None => {
                self.entries.push((key, value));
                assert(self@ =~= s0.push((key@, value@)));
            },
        }
    }

    /// Forget every cell.
    pub fn clear(&mut self)
        ensures
            final(self)@ == Seq::<(Seq<char>, Seq<char>)>::empty(),
    {
        self.entries.clear();
        assert(self@ =~= Seq::<(Seq<char>, Seq<char>)>::empty());
    }
}

proof fn lemma_lookup_position(s: Seq<(Seq<char>, Seq<char>)>, k: Seq<char>, p: Option<usize>)
    requires
        match p {
            Some(i) => i < s.len() && s[i as int].0 == k && forall|j: int| 0 <= j < i ==> s[j].0 != k,
            None => forall|j: int| 0 <= j < s.len() ==> s[j].0 != k,
        },
    ensures
        assoc_lookup(s, k) == match p {
            Some(i) => Some(s[i as int].1),
            None => None::<Seq<char>>,
        },
    decreases s.len(),
{
    if s.len() > 0 && s[0].0 != k {
        let q = match p {
            Some(i) => Some((i - 1) as usize),
            None => None::<usize>,
        };
        assert forall|j: int| 0 <= j < s.len() - 1 && (match p {
            Some(i) => j < i - 1,
            None => true,
        }) implies s.drop_first()[j].0 != k by {
            assert(s.drop_first()[j] == s[j + 1]);
        }
        lemma_lookup_position(s.drop_first(), k, q);
    }
}

proof fn lemma_insert_position(
    s: Seq<(Seq<char>, Seq<char>)>,
    k: Seq<char>,
    v: Seq<char>,
    p: Option<usize>,
)
    requires
        match p {
            Some(i) => i < s.len() && s[i as int].0 == k && forall|j: int| 0 <= j < i ==> s[j].0 != k,
            None => forall|j: int| 0 <= j < s.len() ==> s[j].0 != k,
        },
    ensures
        assoc_insert(s, k, v) == match p {
            Some(i) => s.update(i as int, (k, v)),
            None => s.push((k, v)),
        },
    decreases s.len(),
{
    if s.len() > 0 && s[0].0 != k {
        let d = s.drop_first();
        let q = match p {
            Some(i) => Some((i - 1) as usize),
            None => None::<usize>,
        };
        assert forall|j: int| 0 <= j < d.len() && (match p {
            Some(i) => j < i - 1,
            None => true,
        }) implies d[j].0 != k by {
            assert(d[j] == s[j + 1]);
        }
        lemma_insert_position(d, k, v, q);
        match p {
            Some(i) => {
                assert(seq![s[0]] + d.update(i - 1, (k, v)) =~= s.update(i as int, (k, v)));
            },
            None => {
                assert(seq![s[0]] + d.push((k, v)) =~= s.push((k, v)));
            },
        }
    } else if s.len() == 0 {
        assert(seq![(k, v)] =~= s.push((k, v)));
    }
}

/// Reading a cell back after setting it gives the text set; the other cells
/// keep their texts.
pub proof fn lemma_cell_read_after_write(
    s: Seq<(Seq<char>, Seq<char>)>,
    key: Seq<char>,
    value: Seq<char>,
    other: Seq<char>,
)
    requires
        other != key,
    ensures
        assoc_lookup(assoc_insert(s, key, value), key) == Some(value),
        assoc_lookup(assoc_insert(s, key, value), other) == assoc_lookup(s, other),
    decreases s.len(),
{
    if s.len() > 0 && s[0].0 != key {
        lemma_cell_read_after_write(s.drop_first(), key, value, other);
        let r = assoc_insert(s, key, value);
        assert(r[0] == s[0]);
        assert(r.drop_first() =~= assoc_insert(s.drop_first(), key, value));
    } else if s.len() > 0 {
        let r = assoc_insert(s, key, value);
        assert(r.drop_first() =~= s.drop_first());
    } else {
        let r = assoc_insert(s, key, value);
        assert(r.drop_first() =~= s);
    }
}

/// Setting a cell keeps one entry per key: a key already present is not
/// added again.
pub proof fn lemma_insert_keeps_length(s: Seq<(Seq<char>, Seq<char>)>, key: Seq<char>, value: Seq<char>)
    ensures
        assoc_insert(s, key, value).len() == if assoc_lookup(s, key) is Some {
            s.len()
        } else {
            s.len() + 1
        },
    decreases s.len(),
{
    if s.len() > 0 && s[0].0 != key {
        lemma_insert_keeps_length(s.drop_first(), key, value);
    }
}

// ── Cell keys ──────────────────────────────────────────────────────────────

/// The key of a verb cell: `verb:` then tense, mood, voice, person and
/// number, separated by colons.
pub open spec fn verb_key_of(
    tense: Seq<char>,
    mood: Seq<char>,
    voice: Seq<char>,
    person: Seq<char>,
    number: Seq<char>,
) -> Seq<char> {
    join_seqs(seq!["verb"@, tense, mood, voice, person, number], ":"@)
}

/// The key of a participle cell: `ptcp:` then tense, voice, case, number and
/// gender, separated by colons.
pub open spec fn ptcp_key_of(
    tense: Seq<char>,
    voice: Seq<char>,
    case: Seq<char>,
    number: Seq<char>,
    gender: Seq<char>,
) -> Seq<char> {
    join_seqs(seq!["ptcp"@, tense, voice, case, number, gender], ":"@)
}

/// The key of a nominal cell: case and number, separated by a colon.
pub open spec fn nominal_key_of(case: Seq<char>, number: Seq<char>) -> Seq<char> {
    join_seqs(seq![case, number], ":"@)
}

/// The key of a verb cell.
pub fn verb_cell_key(tense: &str, mood: &str, voice: &str, person: &str, number: &str) -> (r:
    String)
    ensures
        r@ == verb_key_of(tense@, mood@, voice@, person@, number@),
{
    let parts: Vec<&str> = vec!["verb", tense, mood, voice, person, number];
    assert(str_views(parts@) =~= seq!["verb"@, tense@, mood@, voice@, person@, number@]);
    join_strs(&parts, ":")
}

/// The key of a participle cell.
pub fn ptcp_cell_key(tense: &str, voice: &str, case: &str, number: &str, gender: &str) -> (r:
    String)
    ensures
        r@ == ptcp_key_of(tense@, voice@, case@, number@, gender@),
{
    let parts: Vec<&str> = vec!["ptcp", tense, voice, case, number, gender];
    assert(str_views(parts@) =~= seq!["ptcp"@, tense@, voice@, case@, number@, gender@]);
    join_strs(&parts, ":")
}

/// The key of a nominal cell.
pub fn nominal_cell_key(case: &str, number: &str) -> (r: String)
    ensures
        r@ == nominal_key_of(case@, number@),
{
    let parts: Vec<&str> = vec![case, number];
    assert(str_views(parts@) =~= seq![case@, number@]);
    join_strs(&parts, ":")
}

// ── Option lists ───────────────────────────────────────────────────────────

/// The first position of `x` in `s`, or -1.
pub open spec fn position_of(s: Seq<Seq<char>>, x: Seq<char>) -> int
    decreases s.len(),
{
    if s.len() == 0 {
        -1
    } else if s[0] == x {
        0
    } else {
        let p = position_of(s.drop_first(), x);
        if p < 0 {
            -1
        } else {
            p + 1
        }
    }
}

proof fn lemma_position_of(s: Seq<Seq<char>>, x: Seq<char>)
    ensures
        -1 <= position_of(s, x) < s.len(),
        position_of(s, x) >= 0 <==> s.contains(x),
        position_of(s, x) >= 0 ==> s[position_of(s, x)] == x,
        forall|j: int| 0 <= j < position_of(s, x) ==> s[j] != x,
    decreases s.len(),
{
    if s.len() > 0 {
        let r = s.drop_first();
        lemma_position_of(r, x);
        if s[0] != x {
            if s.contains(x) {
                let j = choose|j: int| 0 <= j < s.len() && s[j] == x;
                assert(r[j - 1] == x);
            }
            if r.contains(x) {
                let j = choose|j: int| 0 <= j < r.len() && r[j] == x;
                assert(s[j + 1] == x);
            }
            assert forall|j: int| 0 <= j < position_of(s, x) implies s[j] != x by {
                if j > 0 {
                    assert(s[j] == r[j - 1]);
                }
            }
        } else {
            assert(s.contains(x)) by {
                assert(s[0] == x);
            }
        }
    }
}

/// A required option toggled: a selected option is dropped unless it is the
/// only one; another is added at the end.
pub open spec fn toggled(s: Seq<Seq<char>>, x: Seq<char>) -> Seq<Seq<char>> {
    let p = position_of(s, x);
    if p >= 0 {
        if s.len() > 1 {
            s.remove(p)
        } else {
            s
        }
    } else {
        s.push(x)
    }
}

/// Toggle an option of a list that must keep at least one entry.
pub fn toggle_required_option(selected: &mut Vec<String>, value: &str)
    ensures
        string_views(final(selected)@) == toggled(string_views(old(selected)@), value@),
{
    let ghost v0 = string_views(selected@);
    proof {
        lemma_position_of(v0, value@);
    }
    let mut i: usize = 0;
    while i < selected.len()
        invariant
            i <= selected@.len(),
            string_views(selected@) == v0,
            v0 == string_views(old(selected)@),
            forall|j: int| 0 <= j < i ==> v0[j] != value@,
            -1 <= position_of(v0, value@) < v0.len(),
            position_of(v0, value@) >= 0 <==> v0.contains(value@),
            position_of(v0, value@) >= 0 ==> v0[position_of(v0, value@)] == value@,
            forall|j: int| 0 <= j < position_of(v0, value@) ==> v0[j] != value@,
        decreases selected@.len() - i,
    {
        if str_eq(selected[i].as_str(), value) {
            proof {
                assert(v0[i as int] == value@);
                assert(v0.contains(value@));
                let p = position_of(v0, value@);
                if p > i {
                    assert(v0[i as int] != value@);
                }
                if 0 <= p < i {
                    assert(v0[p] != value@);
                }
                assert(p == i);
            }
            if selected.len() > 1 {
                selected.remove(i);
                proof {
                    assert(string_views(selected@) =~= v0.remove(i as int));
                }
            }
            return;
        }
        i = i + 1;
    }
    proof {
        if v0.contains(value@) {
            assert(v0[position_of(v0, value@)] == value@);
        }
    }
    selected.push(String::from_str(value));
    proof {
        assert(string_views(selected@) =~= v0.push(value@));
    }
}

/// Toggling never empties a list that had an entry.
pub proof fn lemma_toggle_keeps_an_option(s: Seq<Seq<char>>, x: Seq<char>)
    requires
        s.len() > 0,
    ensures
        toggled(s, x).len() > 0,
{
    lemma_position_of(s, x);
}

/// Toggling an option that was not selected, and then toggling it again,
/// gives back the list as it was (when the list had an entry).
pub proof fn lemma_toggle_twice(s: Seq<Seq<char>>, x: Seq<char>)
    requires
        s.len() > 0,
        !s.contains(x),
    ensures
        toggled(toggled(s, x), x) == s,
{
    lemma_position_of(s, x);
    let t = s.push(x);
    lemma_position_of(t, x);
    assert(t[s.len() as int] == x);
    let p = position_of(t, x);
    if p < s.len() {
        assert(s[p] == x);
    }
    assert(t.remove(s.len() as int) =~= s);
}

// ── Starting state ─────────────────────────────────────────────────────────

/// A grammatical tag of a form.
#[derive(Clone, Copy, PartialEq, Eq, Structural, Debug)]
pub enum TagField {
    Tense,
    Mood,
    Voice,
    Person,
    Number,
    Case,
    Gender,
}

/// The text of a tag of a form, empty when absent.
pub open spec fn tag_text(f: Form, which: TagField) -> Seq<char> {
    match which {
        TagField::Tense => text_or_empty(f.tense_tag),
        TagField::Mood => text_or_empty(f.mood_tag),
        TagField::Voice => text_or_empty(f.voice_tag),
        TagField::Person => text_or_empty(f.person_tag),
        TagField::Number => text_or_empty(f.number_tag),
        TagField::Case => text_or_empty(f.case_tag),
        TagField::Gender => text_or_empty(f.gender_tag),
    }
}

fn tag_string(f: &Form, which: TagField) -> (r: String)
    ensures
        r@ == tag_text(*f, which),
{
    match which {
        TagField::Tense => text_of(&f.tense_tag),
        TagField::Mood => text_of(&f.mood_tag),
        TagField::Voice => text_of(&f.voice_tag),
        TagField::Person => text_of(&f.person_tag),
        TagField::Number => text_of(&f.number_tag),
        TagField::Case => text_of(&f.case_tag),
        TagField::Gender => text_of(&f.gender_tag),
    }
}

/// The distinct non-empty values of a tag, in order of first occurrence.
pub open spec fn values_in_order(forms: Seq<Form>, which: TagField) -> Seq<Seq<char>>
    decreases forms.len(),
{
    if forms.len() == 0 {
        Seq::empty()
    } else {
        let prev = values_in_order(forms.drop_last(), which);
        let t = tag_text(forms.last(), which);
        if t.len() > 0 && !prev.contains(t) {
            prev.push(t)
        } else {
            prev
        }
    }
}

fn collect_values(forms: &Vec<Form>, which: TagField) -> (r: Vec<String>)
    ensures
        string_views(r@) == values_in_order(forms@, which),
{
    let mut r: Vec<String> = Vec::new();
    let mut i: usize = 0;
    assert(forms@.take(0) =~= Seq::<Form>::empty());
    while i < forms.len()
        invariant
            i <= forms@.len(),
            string_views(r@) == values_in_order(forms@.take(i as int), which),
        decreases forms@.len() - i,
    {
        let t = tag_string(&forms[i], which);
        let ghost prev = string_views(r@);
        assert(forms@.take(i + 1).drop_last() =~= forms@.take(i as int));
        assert(forms@.take(i + 1).last() == forms@[i as int]);
        let present = strings_contain(&r, t.as_str());
        proof {
            if texts_contain(r@, t@) {
                let j = choose|j: int| 0 <= j < r@.len() && (#[trigger] r@[j])@ == t@;
                assert(prev[j] == t@);
            }
            if prev.contains(t@) {
                let j = choose|j: int| 0 <= j < prev.len() && prev[j] == t@;
                assert(r@[j]@ == t@);
            }
        }
        if t.as_str().unicode_len() > 0 && !present {
            r.push(t);
            proof {
                assert(string_views(r@) =~= prev.push(t@));
            }
        }
        i = i + 1;
    }
    assert(forms@.take(forms@.len() as int) =~= forms@);
    r
}

/// `s`, or `d` when `s` is empty.
pub open spec fn or_default(s: Seq<Seq<char>>, d: Seq<Seq<char>>) -> Seq<Seq<char>> {
    if s.len() == 0 {
        d
    } else {
        s
    }
}

fn strings_or(v: Vec<String>, d: Vec<String>) -> (r: Vec<String>)
    ensures
        string_views(r@) == or_default(string_views(v@), string_views(d@)),
{
    if v.len() == 0 {
        d
    } else {
        v
    }
}

fn one_string(a: &str) -> (r: Vec<String>)
    ensures
        string_views(r@) == seq![a@],
{
    let r = vec![String::from_str(a)];
    assert(string_views(r@) =~= seq![a@]);
    r
}

fn genders_mfn() -> (r: Vec<String>)
    ensures
        string_views(r@) == seq!["m"@, "f"@, "n"@],
{
    let r = vec![String::from_str("m"), String::from_str("f"), String::from_str("n")];
    assert(string_views(r@) =~= seq!["m"@, "f"@, "n"@]);
    r
}

/// The forms of a lemma, in order.
pub open spec fn forms_with_lemma(forms: Seq<Form>, lemma_id: i64) -> Seq<Form>
    decreases forms.len(),
{
    if forms.len() == 0 {
        Seq::empty()
    } else {
        let prev = forms_with_lemma(forms.drop_last(), lemma_id);
        if forms.last().lemma_id == lemma_id {
            prev.push(forms.last())
        } else {
            prev
        }
    }
}

fn lemma_forms(forms: &[Form], lemma_id: i64) -> (r: Vec<Form>)
    ensures
        r@ == forms_with_lemma(forms@, lemma_id),
{
    let mut r: Vec<Form> = Vec::new();
    let mut i: usize = 0;
    assert(forms@.take(0) =~= Seq::<Form>::empty());
    while i < forms.len()
        invariant
            i <= forms@.len(),
            r@ == forms_with_lemma(forms@.take(i as int), lemma_id),
        decreases forms@.len() - i,
    {
        assert(forms@.take(i + 1).drop_last() =~= forms@.take(i as int));
        assert(forms@.take(i + 1).last() == forms@[i as int]);
        if forms[i].lemma_id == lemma_id {
            r.push(forms[i].duplicate());
        }
        i = i + 1;
    }
    assert(forms@.take(forms@.len() as int) =~= forms@);
    r
}

/// Which editor a part of speech opens.
#[derive(Clone, Copy, PartialEq, Eq, Structural, Debug)]
pub enum EditorKind {
    Verb,
    Participle,
    Nominal,
}

pub open spec fn editor_kind_of(pos: Seq<char>) -> EditorKind {
    if pos == "verb"@ {
        EditorKind::Verb
    } else if pos == "participle"@ {
        EditorKind::Participle
    } else {
        EditorKind::Nominal
    }
}

/// The editor that a part of speech opens.
pub fn editor_kind(pos: &str) -> (r: EditorKind)
    ensures
        r == editor_kind_of(pos@),
{
    if str_eq(pos, "verb") {
        EditorKind::Verb
    } else if str_eq(pos, "participle") {
        EditorKind::Participle
    } else {
        EditorKind::Nominal
    }
}

/// The cell key of a form in an editor.
pub open spec fn form_cell_key(f: Form, kind: EditorKind) -> Seq<char> {
    match kind {
        EditorKind::Verb => verb_key_of(
            tag_text(f, TagField::Tense),
            tag_text(f, TagField::Mood),
            tag_text(f, TagField::Voice),
            tag_text(f, TagField::Person),
            tag_text(f, TagField::Number),
        ),
        EditorKind::Participle => ptcp_key_of(
            tag_text(f, TagField::Tense),
            tag_text(f, TagField::Voice),
            tag_text(f, TagField::Case),
            tag_text(f, TagField::Number),
            tag_text(f, TagField::Gender),
        ),
        EditorKind::Nominal => nominal_key_of(tag_text(f, TagField::Case), tag_text(f, TagField::Number)),
    }
}

fn form_key(f: &Form, kind: EditorKind) -> (r: String)
    ensures
        r@ == form_cell_key(*f, kind),
{
    let t = tag_string(f, TagField::Tense);
    let v = tag_string(f, TagField::Voice);
    let n = tag_string(f, TagField::Number);
    match kind {
        EditorKind::Verb => {
            let m = tag_string(f, TagField::Mood);
            let p = tag_string(f, TagField::Person);
            verb_cell_key(t.as_str(), m.as_str(), v.as_str(), p.as_str(), n.as_str())
        },
        EditorKind::Participle => {
            let c = tag_string(f, TagField::Case);
            let g = tag_string(f, TagField::Gender);
            ptcp_cell_key(t.as_str(), v.as_str(), c.as_str(), n.as_str(), g.as_str())
        },
        EditorKind::Nominal => {
            let c = tag_string(f, TagField::Case);
            nominal_cell_key(c.as_str(), n.as_str())
        },
    }
}

/// The cells filled from the forms: each form's text under its key, a later
/// form replacing an earlier one with the same key.
pub open spec fn cells_of(forms: Seq<Form>, kind: EditorKind) -> Seq<(Seq<char>, Seq<char>)>
    decreases forms.len(),
{
    if forms.len() == 0 {
        Seq::empty()
    } else {
        assoc_insert(
            cells_of(forms.drop_last(), kind),
            form_cell_key(forms.last(), kind),
            forms.last().greek_form@,
        )
    }
}

fn fill_cells(forms: &Vec<Form>, kind: EditorKind) -> (r: CellMap)
    ensures
        r@ == cells_of(forms@, kind),
{
    let mut r = CellMap::new();
    let mut i: usize = 0;
    assert(forms@.take(0) =~= Seq::<Form>::empty());
    while i < forms.len()
        invariant
            i <= forms@.len(),
            r@ == cells_of(forms@.take(i as int), kind),
        decreases forms@.len() - i,
    {
        assert(forms@.take(i + 1).drop_last() =~= forms@.take(i as int));
        assert(forms@.take(i + 1).last() == forms@[i as int]);
        let k = form_key(&forms[i], kind);
        r.insert(k, forms[i].greek_form.clone());
        i = i + 1;
    }
    assert(forms@.take(forms@.len() as int) =~= forms@);
    r
}

/// The gender of the first form that has one, else empty.
pub open spec fn first_gender(forms: Seq<Form>) -> Seq<char>
    decreases forms.len(),
{
    if forms.len() == 0 {
        Seq::empty()
    } else {
        match forms[0].gender_tag {
            Some(g) => g@,
            None => first_gender(forms.drop_first()),
        }
    }
}

fn find_gender(forms: &Vec<Form>) -> (r: String)
    ensures
        r@ == first_gender(forms@),
{
    let mut i: usize = 0;
    assert(forms@.skip(0) =~= forms@);
    while i < forms.len()
        invariant
            i <= forms@.len(),
            first_gender(forms@) == first_gender(forms@.skip(i as int)),
        decreases forms@.len() - i,
    {
        assert(forms@.skip(i as int)[0] == forms@[i as int]);
        assert(forms@.skip(i as int).drop_first() =~= forms@.skip(i + 1));
        match &forms[i].gender_tag {
            Some(g) => {
                return g.clone();
            },
            None => {},
        }
        i = i + 1;
    }
    String::new()
}

/// Some form is dual.
pub open spec fn has_dual(forms: Seq<Form>) -> bool {
    exists|i: int| 0 <= i < forms.len() && has_text((#[trigger] forms[i]).number_tag, "du"@)
}

fn any_dual(forms: &Vec<Form>) -> (r: bool)
    ensures
        r == has_dual(forms@),
{
    let mut i: usize = 0;
    while i < forms.len()
        invariant
            i <= forms@.len(),
            forall|j: int| 0 <= j < i ==> !has_text((#[trigger] forms@[j]).number_tag, "du"@),
        decreases forms@.len() - i,
    {
        if opt_str_is(&forms[i].number_tag, "du") {
            return true;
        }
        i = i + 1;
    }
    false
}

/// What the paradigm editor starts with.
pub struct InitState {
    pub greek: String,
    pub translation: String,
    pub pos: String,
    pub gender: String,
    pub dual: bool,
    pub verb_tenses: Vec<String>,
    pub verb_moods: Vec<String>,
    pub verb_voices: Vec<String>,
    pub ptcp_tenses: Vec<String>,
    pub ptcp_voices: Vec<String>,
    pub ptcp_genders: Vec<String>,
    pub cells: CellMap,
}

/// The state of an empty editor: a noun, no cells, the present active
/// indicative selected, and all three participle genders.
pub open spec fn is_default_state(r: InitState) -> bool {
    &&& r.greek@ == Seq::<char>::empty()
    &&& r.translation@ == Seq::<char>::empty()
    &&& r.pos@ == "noun"@
    &&& r.gender@ == Seq::<char>::empty()
    &&& !r.dual
    &&& string_views(r.verb_tenses@) == seq!["pres"@]
    &&& string_views(r.verb_moods@) == seq!["ind"@]
    &&& string_views(r.verb_voices@) == seq!["act"@]
    &&& string_views(r.ptcp_tenses@) == seq!["pres"@]
    &&& string_views(r.ptcp_voices@) == seq!["act"@]
    &&& string_views(r.ptcp_genders@) == seq!["m"@, "f"@, "n"@]
    &&& r.cells@ == Seq::<(Seq<char>, Seq<char>)>::empty()
}

/// The state of an empty editor.
pub fn default_init() -> (r: InitState)
    ensures
        is_default_state(r),
{
    InitState {
        greek: String::new(),
        translation: String::new(),
        pos: String::from_str("noun"),
        gender: String::new(),
        dual: false,
        verb_tenses: one_string("pres"),
        verb_moods: one_string("ind"),
        verb_voices: one_string("act"),
        ptcp_tenses: one_string("pres"),
        ptcp_voices: one_string("act"),
        ptcp_genders: genders_mfn(),
        cells: CellMap::new(),
    }
}

/// The part of speech a saved lemma is edited as: its own, else noun.
pub open spec fn pos_or_noun(l: Lemma) -> Seq<char> {
    match l.part_of_speech {
        Some(p) => p@,
        None => "noun"@,
    }
}

/// The editor state for a saved lemma and its forms.
pub open spec fn state_from(r: InitState, lemma: Lemma, forms: Seq<Form>) -> bool {
    let pos = pos_or_noun(lemma);
    let kind = editor_kind_of(pos);
    &&& r.greek@ == lemma.greek@
    &&& r.translation@ == text_or_empty(lemma.russian)
    &&& r.pos@ == pos
    &&& r.gender@ == if kind == EditorKind::Nominal {
        first_gender(forms)
    } else {
        Seq::<char>::empty()
    }
    &&& r.dual == has_dual(forms)
    &&& string_views(r.verb_tenses@) == if kind == EditorKind::Verb {
        or_default(values_in_order(forms, TagField::Tense), seq!["pres"@])
    } else {
        seq!["pres"@]
    }
    &&& string_views(r.verb_moods@) == if kind == EditorKind::Verb {
        or_default(values_in_order(forms, TagField::Mood), seq!["ind"@])
    } else {
        seq!["ind"@]
    }
    &&& string_views(r.verb_voices@) == if kind == EditorKind::Verb {
        or_default(values_in_order(forms, TagField::Voice), seq!["act"@])
    } else {
        seq!["act"@]
    }
    &&& string_views(r.ptcp_tenses@) == if kind == EditorKind::Participle {
        or_default(values_in_order(forms, TagField::Tense), seq!["pres"@])
    } else {
        seq!["pres"@]
    }
    &&& string_views(r.ptcp_voices@) == if kind == EditorKind::Participle {
        or_default(values_in_order(forms, TagField::Voice), seq!["act"@])
    } else {
        seq!["act"@]
    }
    &&& string_views(r.ptcp_genders@) == if kind == EditorKind::Participle {
        or_default(values_in_order(forms, TagField::Gender), seq!["m"@, "f"@, "n"@])
    } else {
        seq!["m"@, "f"@, "n"@]
    }
    &&& r.cells@ == cells_of(forms, kind)
}

fn state_for_lemma(lemma: &Lemma, forms: &Vec<Form>) -> (r: InitState)
    ensures
        state_from(r, *lemma, forms@),
{
    let pos = match &lemma.part_of_speech {
        Some(p) => p.clone(),
        None => String::from_str("noun"),
    };
    let kind = editor_kind(pos.as_str());
    let dual = any_dual(forms);
    let cells = fill_cells(forms, kind);
    let gender = if kind == EditorKind::Nominal {
        find_gender(forms)
    } else {
        String::new()
    };
    let (verb_tenses, verb_moods, verb_voices) = if kind == EditorKind::Verb {
        (
            strings_or(collect_values(forms, TagField::Tense), one_string("pres")),
            strings_or(collect_values(forms, TagField::Mood), one_string("ind")),
            strings_or(collect_values(forms, TagField::Voice), one_string("act")),
        )
    } else {
        (one_string("pres"), one_string("ind"), one_string("act"))
    };
    let (ptcp_tenses, ptcp_voices, ptcp_genders) = if kind == EditorKind::Participle {
        (
            strings_or(collect_values(forms, TagField::Tense), one_string("pres")),
            strings_or(collect_values(forms, TagField::Voice), one_string("act")),
            strings_or(collect_values(forms, TagField::Gender), genders_mfn()),
        )
    } else {
        (one_string("pres"), one_string("act"), genders_mfn())
    };
    InitState {
        greek: lemma.greek.clone(),
        translation: text_of(&lemma.russian),
        pos,
        gender,
        dual,
        verb_tenses,
        verb_moods,
        verb_voices,
        ptcp_tenses,
        ptcp_voices,
        ptcp_genders,
        cells,
    }
}

/// What the editor starts with: an empty editor, or, when a saved custom
/// lemma is opened, its headword, translation, part of speech, the options
/// its forms use and their texts in the cells.
pub fn compute_init_state(edit_id: Option<i64>, custom_lemmas: &[Lemma], custom_forms: &[Form]) -> (r:
    InitState)
    ensures
        match edit_id {
            None => is_default_state(r),
            Some(lid) => match first_lemma_with_id(custom_lemmas@, lid) {
                None => is_default_state(r),
                Some(l) => state_from(r, l, forms_with_lemma(custom_forms@, lid)),
            },
        },
{
    match edit_id {
        None => default_init(),
        Some(lid) => match find_lemma(custom_lemmas, lid) {
            None => default_init(),
            Some(lemma) => {
                let forms = lemma_forms(custom_forms, lid);
                state_for_lemma(&lemma, &forms)
            },
        },
    }
}

// ── Reading the cells back ─────────────────────────────────────────────────

/// The first position of a colon in `s`, or -1.
pub open spec fn colon_at(s: Seq<char>) -> int
    decreases s.len(),
{
    if s.len() == 0 {
        -1
    } else if s[0] == ':' {
        0
    } else {
        let p = colon_at(s.drop_first());
        if p < 0 {
            -1
        } else {
            p + 1
        }
    }
}

proof fn lemma_colon_at(s: Seq<char>)
    ensures
        -1 <= colon_at(s) < s.len(),
        colon_at(s) >= 0 ==> s[colon_at(s)] == ':',
        forall|j: int| 0 <= j < s.len() && (colon_at(s) < 0 || j < colon_at(s)) ==> s[j] != ':',
    decreases s.len(),
{
    if s.len() > 0 && s[0] != ':' {
        lemma_colon_at(s.drop_first());
        assert forall|j: int| 0 <= j < s.len() && (colon_at(s) < 0 || j < colon_at(s)) implies s[j]
            != ':' by {
            if j > 0 {
                assert(s[j] == s.drop_first()[j - 1]);
            }
        }
    }
}

/// `str::splitn(n, ':')`: at most `n` pieces, the last one the rest of the
/// text.
pub open spec fn split_colons(s: Seq<char>, n: nat) -> Seq<Seq<char>>
    decreases n,
{
    if n <= 1 || colon_at(s) < 0 {
        seq![s]
    } else {
        seq![s.take(colon_at(s))] + split_colons(s.skip(colon_at(s) + 1), (n - 1) as nat)
    }
}

fn find_colon(s: &str) -> (r: Option<usize>)
    ensures
        match r {
            Some(c) => c == colon_at(s@),
            None => colon_at(s@) < 0,
        },
{
    proof {
        lemma_colon_at(s@);
    }
    let n = s.unicode_len();
    let mut i: usize = 0;
    while i < n
        invariant
            n == s@.len(),
            i <= n,
            forall|j: int| 0 <= j < i ==> s@[j] != ':',
            -1 <= colon_at(s@) < s@.len(),
            colon_at(s@) >= 0 ==> s@[colon_at(s@)] == ':',
            forall|j: int| 0 <= j < s@.len() && (colon_at(s@) < 0 || j < colon_at(s@)) ==> s@[j] != ':',
        decreases n - i,
    {
        if s.get_char(i) == ':' {
            proof {
                let c = colon_at(s@);
                if c < 0 || i < c {
                    assert(s@[i as int] != ':');
                }
                if 0 <= c < i {
                    assert(s@[c] != ':');
                }
            }
            return Some(i);
        }
        i = i + 1;
    }
    proof {
        let c = colon_at(s@);
        if c >= 0 {
            assert(s@[c] != ':');
        }
    }
    None
}

fn split_colons_exec(s: &str, n: usize) -> (r: Vec<String>)
    requires
        n >= 1,
    ensures
        string_views(r@) == split_colons(s@, n as nat),
{
    let mut parts: Vec<String> = Vec::new();
    let mut rest: &str = s;
    let mut k: usize = n;
    assert(string_views(parts@) + split_colons(rest@, k as nat) =~= split_colons(s@, n as nat));
    while k > 1
        invariant
            k >= 1,
            string_views(parts@) + split_colons(rest@, k as nat) == split_colons(s@, n as nat),
        decreases k,
    {
        proof {
            lemma_colon_at(rest@);
        }
        match find_colon(rest) {
            None => {
                assert(split_colons(rest@, k as nat) == split_colons(rest@, 1));
                k = 1;
            },
            Some(c) => {
                let len = rest.unicode_len();
                let head = rest.substring_char(0, c);
                let tail = rest.substring_char(c + 1, len);
                let ghost before = string_views(parts@);
                assert(head@ =~= rest@.take(c as int));
                assert(tail@ =~= rest@.skip(c + 1));
                parts.push(String::from_str(head));
                assert(string_views(parts@) =~= before.push(head@));
                assert(split_colons(rest@, k as nat) == seq![head@] + split_colons(
                    tail@,
                    (k - 1) as nat,
                ));
                assert(before.push(head@) + split_colons(tail@, (k - 1) as nat) =~= before
                    + (seq![head@] + split_colons(tail@, (k - 1) as nat)));
                rest = tail;
                k = k - 1;
            },
        }
    }
    let ghost before = string_views(parts@);
    assert(split_colons(rest@, k as nat) == seq![rest@]);
    parts.push(String::from_str(rest));
    assert(string_views(parts@) =~= before.push(rest@));
    assert(before.push(rest@) =~= before + seq![rest@]);
    parts
}

/// Whether `s` begins with `p`.
pub open spec fn starts_with(s: Seq<char>, p: Seq<char>) -> bool {
    p.len() <= s.len() && s.take(p.len() as int) == p
}

fn has_prefix(s: &str, p: &str) -> (r: bool)
    ensures
        r == starts_with(s@, p@),
{
    let n = p.unicode_len();
    if n > s.unicode_len() {
        return false;
    }
    let mut i: usize = 0;
    while i < n
        invariant
            n == p@.len(),
            n <= s@.len(),
            i <= n,
            forall|j: int| 0 <= j < i ==> s@[j] == p@[j],
        decreases n - i,
    {
        if s.get_char(i) != p.get_char(i) {
            proof {
                assert(s@.take(n as int)[i as int] != p@[i as int]);
            }
            return false;
        }
        i = i + 1;
    }
    assert(s@.take(n as int) =~= p@);
    true
}

/// The tags of a verb cell key: six colon-separated pieces, the first
/// `verb`.
pub open spec fn verb_key_parts(k: Seq<char>) -> Option<Seq<Seq<char>>> {
    let p = split_colons(k, 6);
    if p.len() == 6 && p[0] == "verb"@ {
        Some(p)
    } else {
        None
    }
}

/// The filled verb cells, in order, as their tags and text.
pub open spec fn verb_cells(s: Seq<(Seq<char>, Seq<char>)>) -> Seq<(Seq<Seq<char>>, Seq<char>)>
    decreases s.len(),
{
    if s.len() == 0 {
        Seq::empty()
    } else {
        let prev = verb_cells(s.drop_last());
        let (k, v) = s.last();
        if !blank(v) && verb_key_parts(k) is Some {
            prev.push((verb_key_parts(k)->0, v))
        } else {
            prev
        }
    }
}

/// A verb form entry holds the tags and text of a cell.
pub open spec fn verb_entry_is(e: CustomVerbFormEntry, c: (Seq<Seq<char>>, Seq<char>)) -> bool {
    &&& e.tense_tag@ == c.0[1]
    &&& e.mood_tag@ == c.0[2]
    &&& e.voice_tag@ == c.0[3]
    &&& e.person_tag@ == c.0[4]
    &&& e.number_tag@ == c.0[5]
    &&& e.greek_form@ == c.1
}

/// The verb form entries of the filled verb cells, in order.
pub fn verb_entries(cells: &CellMap) -> (r: Vec<CustomVerbFormEntry>)
    ensures
        r@.len() == verb_cells(cells@).len(),
        forall|i: int| 0 <= i < r@.len() ==> verb_entry_is(#[trigger] r@[i], verb_cells(cells@)[i]),
{
    let mut r: Vec<CustomVerbFormEntry> = Vec::new();
    let mut i: usize = 0;
    assert(cells@.take(0) =~= Seq::<(Seq<char>, Seq<char>)>::empty());
    while i < cells.len()
        invariant
            i <= cells@.len(),
            r@.len() == verb_cells(cells@.take(i as int)).len(),
            forall|j: int|
                0 <= j < r@.len() ==> verb_entry_is(
                    #[trigger] r@[j],
                    verb_cells(cells@.take(i as int))[j],
                ),
        decreases cells@.len() - i,
    {
        let (key, value) = cells.entry(i);
        assert(cells@.take(i + 1).drop_last() =~= cells@.take(i as int));
        assert(cells@.take(i + 1).last() == cells@[i as int]);
        let ghost prev = verb_cells(cells@.take(i as int));
        if !is_blank(value.as_str()) {
            let parts = split_colons_exec(key.as_str(), 6);
            if parts.len() == 6 && str_eq(parts[0].as_str(), "verb") {
                proof {
                    reveal_strlit("verb");
                    assert(string_views(parts@)[0] == parts@[0]@);
                }
                let ghost c = (string_views(parts@), value@);
                r.push(
                    CustomVerbFormEntry {
                        tense_tag: parts[1].clone(),
                        mood_tag: parts[2].clone(),
                        voice_tag: parts[3].clone(),
                        person_tag: parts[4].clone(),
                        number_tag: parts[5].clone(),
                        greek_form: value.clone(),
                    },
                );
                proof {
                    assert(verb_cells(cells@.take(i + 1)) == prev.push(c));
                    assert forall|j: int| 0 <= j < r@.len() implies verb_entry_is(
                        #[trigger] r@[j],
                        verb_cells(cells@.take(i + 1))[j],
                    ) by {
                        if j < r@.len() - 1 {
                            assert(verb_cells(cells@.take(i + 1))[j] == prev[j]);
                        }
                    }
                }
            } else {
                proof {
                    reveal_strlit("verb");
                    if parts@.len() == 6 {
                        assert(string_views(parts@)[0] == parts@[0]@);
                    }
                }
            }
        }
        i = i + 1;
    }
    assert(cells@.take(cells@.len() as int) =~= cells@);
    r
}

/// The case and number of a nominal cell key: the key is not a verb or
/// participle key, and both pieces around its first colon are non-empty.
pub open spec fn nominal_key_parts(k: Seq<char>) -> Option<(Seq<char>, Seq<char>)> {
    let p = split_colons(k, 2);
    let case = p[0];
    let number = if p.len() > 1 {
        p[1]
    } else {
        Seq::<char>::empty()
    };
    if starts_with(k, "verb:"@) || starts_with(k, "ptcp:"@) || case.len() == 0 || number.len()
        == 0 {
        None
    } else {
        Some((case, number))
    }
}

/// The filled nominal cells, in order, as case, number and text.
pub open spec fn nominal_cells(s: Seq<(Seq<char>, Seq<char>)>) -> Seq<
    (Seq<char>, Seq<char>, Seq<char>),
>
    decreases s.len(),
{
    if s.len() == 0 {
        Seq::empty()
    } else {
        let prev = nominal_cells(s.drop_last());
        let (k, v) = s.last();
        if !blank(v) && nominal_key_parts(k) is Some {
            let (c, n) = nominal_key_parts(k)->0;
            prev.push((c, n, v))
        } else {
            prev
        }
    }
}

/// The nominal form entries of the filled nominal cells, in order.
pub fn nominal_entries(cells: &CellMap) -> (r: Vec<CustomFormEntry>)
    ensures
        r@.len() == nominal_cells(cells@).len(),
        forall|i: int|
            0 <= i < r@.len() ==> {
                let c = #[trigger] nominal_cells(cells@)[i];
                r@[i].case_tag@ == c.0 && r@[i].number_tag@ == c.1 && r@[i].greek_form@ == c.2
            },
{
    let mut r: Vec<CustomFormEntry> = Vec::new();
    let mut i: usize = 0;
    assert(cells@.take(0) =~= Seq::<(Seq<char>, Seq<char>)>::empty());
    while i < cells.len()
        invariant
            i <= cells@.len(),
            r@.len() == nominal_cells(cells@.take(i as int)).len(),
            forall|j: int|
                0 <= j < r@.len() ==> {
                    let c = #[trigger] nominal_cells(cells@.take(i as int))[j];
                    r@[j].case_tag@ == c.0 && r@[j].number_tag@ == c.1 && r@[j].greek_form@
                        == c.2
                },
        decreases cells@.len() - i,
    {
        let (key, value) = cells.entry(i);
        assert(cells@.take(i + 1).drop_last() =~= cells@.take(i as int));
        assert(cells@.take(i + 1).last() == cells@[i as int]);
        let ghost prev = nominal_cells(cells@.take(i as int));
        let skip = is_blank(value.as_str()) || has_prefix(key.as_str(), "verb:") || has_prefix(
            key.as_str(),
            "ptcp:",
        );
        if !skip {
            let parts = split_colons_exec(key.as_str(), 2);
            let case = parts[0].clone();
            let number = if parts.len() > 1 {
                parts[1].clone()
            } else {
                String::new()
            };
            proof {
                assert(string_views(parts@)[0] == parts@[0]@);
                if parts@.len() > 1 {
                    assert(string_views(parts@)[1] == parts@[1]@);
                }
            }
            if case.as_str().unicode_len() > 0 && number.as_str().unicode_len() > 0 {
                let ghost c = (case@, number@, value@);
                r.push(CustomFormEntry { case_tag: case, number_tag: number, greek_form: value.clone() });
                proof {
                    assert(nominal_cells(cells@.take(i + 1)) == prev.push(c));
                    assert forall|j: int| 0 <= j < r@.len() implies {
                        let c2 = #[trigger] nominal_cells(cells@.take(i + 1))[j];
                        r@[j].case_tag@ == c2.0 && r@[j].number_tag@ == c2.1 && r@[j].greek_form@
                            == c2.2
                    } by {
                        if j < r@.len() - 1 {
                            assert(nominal_cells(cells@.take(i + 1))[j] == prev[j]);
                        }
                    }
                }
            }
        }
        i = i + 1;
    }
    assert(cells@.take(cells@.len() as int) =~= cells@);
    r
}

/// `s` has no colon.
pub open spec fn no_colon(s: Seq<char>) -> bool {
    forall|j: int| 0 <= j < s.len() ==> s[j] != ':'
}

proof fn lemma_join_cons(a: Seq<char>, rest: Seq<Seq<char>>, sep: Seq<char>)
    requires
        rest.len() >= 1,
    ensures
        join_seqs(seq![a] + rest, sep) == a + sep + join_seqs(rest, sep),
    decreases rest.len(),
{
    let all = seq![a] + rest;
    assert(all.last() == rest.last());
    if rest.len() == 1 {
        assert(all.drop_last() =~= seq![a]);
        assert(join_seqs(seq![a], sep) == a);
        assert(join_seqs(rest, sep) == rest[0]);
    } else {
        lemma_join_cons(a, rest.drop_last(), sep);
        assert(all.drop_last() =~= seq![a] + rest.drop_last());
        assert(a + sep + join_seqs(rest, sep) =~= a + sep + join_seqs(rest.drop_last(), sep) + sep
            + rest.last());
    }
}

proof fn lemma_colon_after(a: Seq<char>, b: Seq<char>)
    requires
        no_colon(a),
    ensures
        colon_at(a + ":"@ + b) == a.len(),
    decreases a.len(),
{
    reveal_strlit(":");
    let k = a + ":"@ + b;
    if a.len() == 0 {
        assert(k[0] == ':');
    } else {
        lemma_colon_after(a.drop_first(), b);
        assert(k.drop_first() =~= a.drop_first() + ":"@ + b);
    }
}

/// Splitting a colon-joined text at its colons gives back the pieces, when
/// no piece but the last has a colon.
pub proof fn lemma_split_join(parts: Seq<Seq<char>>)
    requires
        parts.len() >= 1,
        forall|i: int| 0 <= i < parts.len() - 1 ==> no_colon(#[trigger] parts[i]),
    ensures
        split_colons(join_seqs(parts, ":"@), parts.len()) == parts,
    decreases parts.len(),
{
    if parts.len() == 1 {
        assert(split_colons(parts[0], 1) =~= parts);
    } else {
        let rest = parts.drop_first();
        assert(parts =~= seq![parts[0]] + rest);
        lemma_join_cons(parts[0], rest, ":"@);
        assert forall|i: int| 0 <= i < rest.len() - 1 implies no_colon(#[trigger] rest[i]) by {
            assert(rest[i] == parts[i + 1]);
        }
        lemma_split_join(rest);
        let k = join_seqs(parts, ":"@);
        let jr = join_seqs(rest, ":"@);
        lemma_colon_after(parts[0], jr);
        reveal_strlit(":");
        assert(k.take(parts[0].len() as int) =~= parts[0]);
        assert(k.skip(parts[0].len() as int + 1) =~= jr);
    }
}

/// A verb cell key is read back as the tags it was made of, when no tag but
/// the number has a colon.
pub proof fn lemma_verb_key_round_trip(
    tense: Seq<char>,
    mood: Seq<char>,
    voice: Seq<char>,
    person: Seq<char>,
    number: Seq<char>,
)
    requires
        no_colon(tense),
        no_colon(mood),
        no_colon(voice),
        no_colon(person),
    ensures
        verb_key_parts(verb_key_of(tense, mood, voice, person, number)) == Some(
            seq!["verb"@, tense, mood, voice, person, number],
        ),
{
    reveal_strlit("verb");
    let parts = seq!["verb"@, tense, mood, voice, person, number];
    assert forall|i: int| 0 <= i < parts.len() - 1 implies no_colon(#[trigger] parts[i]) by {
        if i == 0 {
            assert(parts[0] == "verb"@);
        }
    }
    lemma_split_join(parts);
}

/// A nominal cell key is read back as its case and number, when the case
/// has no colon, both are non-empty and the case is not `verb` or `ptcp`.
pub proof fn lemma_nominal_key_round_trip(case: Seq<char>, number: Seq<char>)
    requires
        no_colon(case),
        case.len() > 0,
        number.len() > 0,
        case != "verb"@,
        case != "ptcp"@,
    ensures
        nominal_key_parts(nominal_key_of(case, number)) == Some((case, number)),
{
    reveal_strlit(":");
    reveal_strlit("verb");
    reveal_strlit("ptcp");
    reveal_strlit("verb:");
    reveal_strlit("ptcp:");
    let parts = seq![case, number];
    lemma_split_join(parts);
    let k = nominal_key_of(case, number);
    assert(parts.drop_last() =~= seq![case]);
    assert(join_seqs(seq![case], ":"@) == case);
    assert(k =~= case + ":"@ + number);
    assert(k[case.len() as int] == ':');
    assert(!starts_with(k, "verb:"@)) by {
        if starts_with(k, "verb:"@) {
            if case.len() < 4 {
                assert(k.take(5)[case.len() as int] == ':');
            } else if case.len() == 4 {
                assert(k.take(4) =~= case);
                assert(case =~= "verb"@);
            } else {
                assert(k.take(5)[4] == case[4]);
            }
        }
    }
    assert(!starts_with(k, "ptcp:"@)) by {
        if starts_with(k, "ptcp:"@) {
            if case.len() < 4 {
                assert(k.take(5)[case.len() as int] == ':');
            } else if case.len() == 4 {
                assert(k.take(4) =~= case);
                assert(case =~= "ptcp"@);
            } else {
                assert(k.take(5)[4] == case[4]);
            }
        }
    }
}

/// The verb paradigm saved from the editor: the headword and translation
/// as typed, and the filled verb cells.
pub fn verb_draft(lemma_greek: String, translation: String, cells: &CellMap) -> (r:
    CustomVerbParadigmDraft)
    ensures
        r.lemma_greek@ == lemma_greek@,
        r.translation matches Some(t) && t@ == translation@,
        r.entries@.len() == verb_cells(cells@).len(),
        forall|i: int|
            0 <= i < r.entries@.len() ==> verb_entry_is(#[trigger] r.entries@[i], verb_cells(cells@)[i]),
{
    CustomVerbParadigmDraft { lemma_greek, translation: Some(translation), entries: verb_entries(cells) }
}

/// The nominal paradigm saved from the editor: the headword, translation
/// and part of speech as typed, the gender unless none was chosen, and the
/// filled nominal cells.
pub fn nominal_draft(
    lemma_greek: String,
    translation: String,
    pos: String,
    gender: String,
    cells: &CellMap,
) -> (r: CustomNominalParadigmDraft)
    ensures
        r.lemma_greek@ == lemma_greek@,
        r.translation matches Some(t) && t@ == translation@,
        r.pos@ == pos@,
        gender@.len() == 0 ==> r.gender is None,
        gender@.len() > 0 ==> (r.gender matches Some(g) && g@ == gender@),
        r.entries@.len() == nominal_cells(cells@).len(),
        forall|i: int|
            0 <= i < r.entries@.len() ==> {
                let c = #[trigger] nominal_cells(cells@)[i];
                r.entries@[i].case_tag@ == c.0 && r.entries@[i].number_tag@ == c.1
                    && r.entries@[i].greek_form@ == c.2
            },
{
    let g = if gender.as_str().unicode_len() == 0 {
        None
    } else {
        Some(gender)
    };
    CustomNominalParadigmDraft {
        lemma_greek,
        translation: Some(translation),
        pos,
        gender: g,
        entries: nominal_entries(cells),
    }
}

} // verus!

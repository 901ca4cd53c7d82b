//! Paradigm tables: nouns and adjectives by case × number (× gender), verbs
//! by person × number for each tense, mood and voice, infinitives in a row.
use vstd::prelude::*;

use crate::form::{Form, Lemma};
use crate::settings::UiLanguage;
use crate::text::{has_text, opt_str_is, str_eq, str_views, text_of, text_or_empty};

verus! {

/// A single cell in a paradigm table.
#[derive(Debug, Clone)]
pub struct ParadigmCell {
    pub form: Option<Form>,
}

/// A fully built paradigm table ready for rendering.
#[derive(Debug, Clone)]
pub struct ParadigmTable {
    pub lemma: Lemma,
    /// For verb sub-tables: "Pres, Ind, Act" etc. None for nominal paradigms.
    pub title: Option<String>,
    /// Raw tag keys of a verb sub-table.
    pub tense_key: Option<String>,
    pub mood_key: Option<String>,
    pub voice_key: Option<String>,
    pub col_headers: Vec<String>,
    pub row_headers: Vec<String>,
    /// `[row][col]`
    pub cells: Vec<Vec<ParadigmCell>>,
}

// ── Shared pieces ──────────────────────────────────────────────────────────

/// The five case rows of a nominal table.
pub open spec fn case_keys() -> Seq<Seq<char>> {
    seq!["nom"@, "gen"@, "dat"@, "acc"@, "voc"@]
}

/// The number columns: singular, (dual,) plural.
pub open spec fn number_keys(dual: bool) -> Seq<Seq<char>> {
    if dual {
        seq!["sg"@, "du"@, "pl"@]
    } else {
        seq!["sg"@, "pl"@]
    }
}

fn number_list(dual: bool) -> (v: Vec<&'static str>)
    ensures
        str_views(v@) == number_keys(dual),
{
    let v: Vec<&'static str> = if dual {
        vec!["sg", "du", "pl"]
    } else {
        vec!["sg", "pl"]
    };
    assert(str_views(v@) =~= number_keys(dual));
    v
}

/// `a`, a space, `b`.
fn spaced(a: &str, b: &str) -> (r: String)
    ensures
        r@ == a@ + " "@ + b@,
{
    let mut r = String::from_str(a);
    r.append(" ");
    r.append(b);
    r
}

// ── Nominal paradigms ──────────────────────────────────────────────────────

/// The (number, gender) column keys: each number with every gender.
pub open spec fn nominal_columns(nums: Seq<Seq<char>>, gens: Seq<Seq<char>>) -> Seq<
    (Seq<char>, Seq<char>),
>
    decreases nums.len(),
{
    if nums.len() == 0 {
        Seq::empty()
    } else {
        nominal_columns(nums.drop_last(), gens) + Seq::new(
            gens.len(),
            |j: int| (nums.last(), gens[j]),
        )
    }
}

/// A form fits a nominal cell: same case and number, and the same gender
/// unless the table has a single gender.
pub open spec fn nominal_fit(
    f: Form,
    case: Seq<char>,
    num: Seq<char>,
    gen: Seq<char>,
    any_gender: bool,
) -> bool {
    has_text(f.case_tag, case) && has_text(f.number_tag, num) && (any_gender || has_text(
        f.gender_tag,
        gen,
    ))
}

/// The first form that fits a nominal cell.
pub open spec fn first_nominal(
    forms: Seq<Form>,
    case: Seq<char>,
    num: Seq<char>,
    gen: Seq<char>,
    any_gender: bool,
) -> Option<Form>
    decreases forms.len(),
{
    if forms.len() == 0 {
        None
    } else if nominal_fit(forms[0], case, num, gen, any_gender) {
        Some(forms[0])
    } else {
        first_nominal(forms.drop_first(), case, num, gen, any_gender)
    }
}

fn find_nominal(forms: &[Form], case: &str, num: &str, gen: &str, any_gender: bool) -> (r: Option<
    Form,
>)
    ensures
        r == first_nominal(forms@, case@, num@, gen@, any_gender),
{
    let mut i: usize = 0;
    assert(forms@.skip(0) =~= forms@);
    while i < forms.len()
        invariant
            i <= forms@.len(),
            first_nominal(forms@, case@, num@, gen@, any_gender) == first_nominal(
                forms@.skip(i as int),
                case@,
                num@,
                gen@,
                any_gender,
            ),
        decreases forms.len() - i,
    {
        let f = &forms[i];
        assert(forms@.skip(i as int)[0] == forms@[i as int]);
        assert(forms@.skip(i as int).drop_first() =~= forms@.skip(i + 1));
        if opt_str_is(&f.case_tag, case) && opt_str_is(&f.number_tag, num) && (any_gender
            || opt_str_is(&f.gender_tag, gen)) {
            return Some(f.duplicate());
        }
        i = i + 1;
    }
    None
}

/// What a nominal table built from `forms` holds.
pub open spec fn nominal_table_ok(
    t: ParadigmTable,
    lemma: Lemma,
    forms: Seq<Form>,
    dual: bool,
    genders: Seq<Seq<char>>,
    lang: UiLanguage,
) -> bool {
    let cols = nominal_columns(number_keys(dual), genders);
    &&& t.lemma == lemma
    &&& t.title is None
    &&& t.tense_key is None
    &&& t.mood_key is None
    &&& t.voice_key is None
    &&& t.col_headers@.len() == cols.len()
    &&& forall|k: int|
        0 <= k < cols.len() ==> (#[trigger] t.col_headers@[k])@ == num_label_of(cols[k].0, lang)
            + " "@ + gender_label_of(cols[k].1, lang)
    &&& t.row_headers@.len() == case_keys().len()
    &&& forall|r: int|
        0 <= r < case_keys().len() ==> (#[trigger] t.row_headers@[r])@ == case_label_of(
            case_keys()[r],
            lang,
        )
    &&& t.cells@.len() == case_keys().len()
    &&& forall|r: int| 0 <= r < case_keys().len() ==> (#[trigger] t.cells@[r])@.len() == cols.len()
    &&& forall|r: int, k: int|
        0 <= r < case_keys().len() && 0 <= k < cols.len() ==> (#[trigger] t.cells@[r]@[k]).form
            == first_nominal(forms, case_keys()[r], cols[k].0, cols[k].1, genders.len() == 1)
}

fn nominal_column_keys(numbers: &Vec<&'static str>, genders: &[&str]) -> (r: Vec<(&'static str, String)>)
    ensures
        r@.len() == nominal_columns(str_views(numbers@), str_views(genders@)).len(),
        forall|k: int|
            0 <= k < r@.len() ==> (#[trigger] r@[k]).0@ == nominal_columns(
                str_views(numbers@),
                str_views(genders@),
            )[k].0 && r@[k].1@ == nominal_columns(str_views(numbers@), str_views(genders@))[k].1,
{
    let ghost nums = str_views(numbers@);
    let ghost gens = str_views(genders@);
    let mut r: Vec<(&'static str, String)> = Vec::new();
    let mut ni: usize = 0;
    while ni < numbers.len()
        invariant
            nums == str_views(numbers@),
            gens == str_views(genders@),
            ni <= numbers.len(),
            r@.len() == nominal_columns(nums.take(ni as int), gens).len(),
            forall|k: int|
                0 <= k < r@.len() ==> (#[trigger] r@[k]).0@ == nominal_columns(
                    nums.take(ni as int),
                    gens,
                )[k].0 && r@[k].1@ == nominal_columns(nums.take(ni as int), gens)[k].1,
        decreases numbers.len() - ni,
    {
        let ghost base = r@.len();
        let ghost before = nominal_columns(nums.take(ni as int), gens);
        let num = numbers[ni];
        let mut gi: usize = 0;
        while gi < genders.len()
            invariant
                nums == str_views(numbers@),
                gens == str_views(genders@),
                ni < numbers.len(),
                num == numbers@[ni as int],
                gi <= genders.len(),
                before == nominal_columns(nums.take(ni as int), gens),
                base == before.len(),
                r@.len() == base + gi,
                forall|k: int|
                    0 <= k < base ==> (#[trigger] r@[k]).0@ == before[k].0 && r@[k].1@
                        == before[k].1,
                forall|j: int|
                    0 <= j < gi ==> (#[trigger] r@[base + j]).0@ == num@ && r@[base + j].1@
                        == gens[j],
            decreases genders.len() - gi,
        {
            r.push((num, String::from_str(genders[gi])));
            gi = gi + 1;
        }
        assert(nums.take(ni + 1).drop_last() =~= nums.take(ni as int));
        assert(nums.take(ni + 1).last() == num@);
        let ghost after = nominal_columns(nums.take(ni + 1), gens);
        let ghost tail = Seq::new(gens.len(), |j: int| (num@, gens[j]));
        assert(after == before + tail);
        assert forall|k: int| 0 <= k < r@.len() implies (#[trigger] r@[k]).0@ == after[k].0
            && r@[k].1@ == after[k].1 by {
            if k >= base {
                assert(r@[base + (k - base)] == r@[k]);
            }
        }
        ni = ni + 1;
    }
    assert(nums.take(numbers.len() as int) =~= nums);
    r
}

/// Build a noun/adjective paradigm table (rows = cases, cols = number ×
/// gender).
pub fn build_nominal_paradigm(
    lemma: Lemma,
    forms: &[Form],
    include_dual: bool,
    genders: &[&str],
    lang: &UiLanguage,
) -> (t: ParadigmTable)
    ensures
        nominal_table_ok(t, lemma, forms@, include_dual, str_views(genders@), *lang),
{
    let cases: Vec<&'static str> = vec!["nom", "gen", "dat", "acc", "voc"];
    assert(str_views(cases@) =~= case_keys());
    let numbers = number_list(include_dual);
    let col_keys = nominal_column_keys(&numbers, genders);
    let ghost cols = nominal_columns(number_keys(include_dual), str_views(genders@));
    let mut col_headers: Vec<String> = Vec::new();
    let mut k: usize = 0;
    while k < col_keys.len()
        invariant
            k <= col_keys@.len(),
            col_keys@.len() == cols.len(),
            forall|q: int|
                0 <= q < col_keys@.len() ==> (#[trigger] col_keys@[q]).0@ == cols[q].0
                    && col_keys@[q].1@ == cols[q].1,
            col_headers@.len() == k,
            forall|q: int|
                0 <= q < k ==> (#[trigger] col_headers@[q])@ == num_label_of(cols[q].0, *lang)
                    + " "@ + gender_label_of(cols[q].1, *lang),
        decreases col_keys.len() - k,
    {
        let (num, ref gen) = col_keys[k];
        col_headers.push(spaced(num_label(num, lang), gender_label(gen.as_str(), lang)));
        k = k + 1;
    }
    let mut row_headers: Vec<String> = Vec::new();
    let mut cells: Vec<Vec<ParadigmCell>> = Vec::new();
    let single = genders.len() == 1;
    let mut r: usize = 0;
    while r < cases.len()
        invariant
            str_views(cases@) == case_keys(),
            r <= cases@.len(),
            single == (genders@.len() == 1),
            col_keys@.len() == cols.len(),
            forall|q: int|
                0 <= q < col_keys@.len() ==> (#[trigger] col_keys@[q]).0@ == cols[q].0
                    && col_keys@[q].1@ == cols[q].1,
            row_headers@.len() == r,
            cells@.len() == r,
            forall|q: int|
                0 <= q < r ==> (#[trigger] row_headers@[q])@ == case_label_of(
                    case_keys()[q],
                    *lang,
                ),
            forall|q: int| 0 <= q < r ==> (#[trigger] cells@[q])@.len() == cols.len(),
            forall|q: int, p: int|
                0 <= q < r && 0 <= p < cols.len() ==> (#[trigger] cells@[q]@[p]).form
                    == first_nominal(forms@, case_keys()[q], cols[p].0, cols[p].1, single),
        decreases cases.len() - r,
    {
        let case = cases[r];
        assert(case@ == case_keys()[r as int]);
        row_headers.push(String::from_str(case_label(case, lang)));
        let mut row: Vec<ParadigmCell> = Vec::new();
        let mut k: usize = 0;
        while k < col_keys.len()
            invariant
                k <= col_keys@.len(),
                col_keys@.len() == cols.len(),
                forall|q: int|
                    0 <= q < col_keys@.len() ==> (#[trigger] col_keys@[q]).0@ == cols[q].0
                        && col_keys@[q].1@ == cols[q].1,
                row@.len() == k,
                forall|p: int|
                    0 <= p < k ==> (#[trigger] row@[p]).form == first_nominal(
                        forms@,
                        case@,
                        cols[p].0,
                        cols[p].1,
                        single,
                    ),
            decreases col_keys.len() - k,
        {
            let (num, ref gen) = col_keys[k];
            let form = find_nominal(forms, case, num, gen.as_str(), single);
            row.push(ParadigmCell { form });
            k = k + 1;
        }
        cells.push(row);
        r = r + 1;
    }
    ParadigmTable {
        lemma,
        title: None,
        tense_key: None,
        mood_key: None,
        voice_key: None,
        col_headers,
        row_headers,
        cells,
    }
}

// ── Verb paradigms ─────────────────────────────────────────────────────────

/// A (tense, mood, voice) key, as text.
pub type TmvText = (Seq<char>, Seq<char>, Seq<char>);

/// A (tense, mood, voice) key.
pub type TmvKey = (String, String, String);

/// The finite moods, which get person × number tables.
pub open spec fn finite_mood(m: Seq<char>) -> bool {
    m == "ind"@ || m == "subj"@ || m == "opt"@ || m == "imp"@
}

fn is_finite_mood(m: &str) -> (r: bool)
    ensures
        r == finite_mood(m@),
{
    str_eq(m, "ind") || str_eq(m, "subj") || str_eq(m, "opt") || str_eq(m, "imp")
}

/// The key of a form: its tense, mood and voice, absent ones empty.
pub open spec fn tmv_of(f: Form) -> TmvText {
    (text_or_empty(f.tense_tag), text_or_empty(f.mood_tag), text_or_empty(f.voice_tag))
}

pub open spec fn tmv_views(s: Seq<TmvKey>) -> Seq<TmvText> {
    Seq::new(s.len(), |i: int| (s[i].0@, s[i].1@, s[i].2@))
}

/// The distinct keys of the finite forms, in order of first occurrence.
pub open spec fn finite_keys(forms: Seq<Form>) -> Seq<TmvText>
    decreases forms.len(),
{
    if forms.len() == 0 {
        Seq::empty()
    } else {
        let prev = finite_keys(forms.drop_last());
        let f = forms.last();
        if finite_mood(text_or_empty(f.mood_tag)) && !prev.contains(tmv_of(f)) {
            prev.push(tmv_of(f))
        } else {
            prev
        }
    }
}

/// Display order of keys: by tense, then mood, then voice.
pub open spec fn tmv_le(a: TmvText, b: TmvText) -> bool {
    let ta = tense_order_of(a.0);
    let tb = tense_order_of(b.0);
    let ma = mood_order_of(a.1);
    let mb = mood_order_of(b.1);
    ta < tb || (ta == tb && (ma < mb || (ma == mb && voice_order_of(a.2) <= voice_order_of(
        b.2,
    ))))
}

/// `x` inserted into `s` after every key that does not come after it.
pub open spec fn tmv_insert(s: Seq<TmvText>, x: TmvText) -> Seq<TmvText>
    decreases s.len(),
{
    if s.len() == 0 {
        seq![x]
    } else if !tmv_le(s.last(), x) {
        tmv_insert(s.drop_last(), x).push(s.last())
    } else {
        s.push(x)
    }
}

/// Stable sort of keys into display order.
pub open spec fn tmv_sort(s: Seq<TmvText>) -> Seq<TmvText>
    decreases s.len(),
{
    if s.len() == 0 {
        s
    } else {
        tmv_insert(tmv_sort(s.drop_last()), s.last())
    }
}

fn tmv_le_exec(a: &TmvKey, b: &TmvKey) -> (r: bool)
    ensures
        r == tmv_le((a.0@, a.1@, a.2@), (b.0@, b.1@, b.2@)),
{
    let ta = tense_order(a.0.as_str());
    let tb = tense_order(b.0.as_str());
    let ma = mood_order(a.1.as_str());
    let mb = mood_order(b.1.as_str());
    ta < tb || (ta == tb && (ma < mb || (ma == mb && voice_order(a.2.as_str()) <= voice_order(
        b.2.as_str(),
    ))))
}

fn has_tmv(keys: &Vec<TmvKey>, x: &TmvKey) -> (r: bool)
    ensures
        r == tmv_views(keys@).contains((x.0@, x.1@, x.2@)),
{
    let mut i: usize = 0;
    while i < keys.len()
        invariant
            i <= keys.len(),
            forall|j: int| 0 <= j < i ==> tmv_views(keys@)[j] != (x.0@, x.1@, x.2@),
        decreases keys.len() - i,
    {
        let k = &keys[i];
        if str_eq(k.0.as_str(), x.0.as_str()) && str_eq(k.1.as_str(), x.1.as_str()) && str_eq(
            k.2.as_str(),
            x.2.as_str(),
        ) {
            assert(tmv_views(keys@)[i as int] == (x.0@, x.1@, x.2@));
            return true;
        }
        i = i + 1;
    }
    false
}

fn collect_finite_keys(forms: &[Form]) -> (r: Vec<TmvKey>)
    ensures
        tmv_views(r@) == finite_keys(forms@),
{
    let mut r: Vec<TmvKey> = Vec::new();
    let mut i: usize = 0;
    assert(forms@.take(0) =~= Seq::<Form>::empty());
    assert(tmv_views(r@) =~= Seq::<TmvText>::empty());
    while i < forms.len()
        invariant
            i <= forms@.len(),
            tmv_views(r@) == finite_keys(forms@.take(i as int)),
        decreases forms.len() - i,
    {
        let f = &forms[i];
        assert(forms@.take(i + 1).drop_last() =~= forms@.take(i as int));
        assert(forms@.take(i + 1).last() == forms@[i as int]);
        let m = text_of(&f.mood_tag);
        if is_finite_mood(m.as_str()) {
            let key = (text_of(&f.tense_tag), m, text_of(&f.voice_tag));
            if !has_tmv(&r, &key) {
                r.push(key);
                assert(tmv_views(r@) =~= finite_keys(forms@.take(i as int)).push(
                    tmv_of(forms@[i as int]),
                ));
            }
        }
        i = i + 1;
    }
    assert(forms@.take(forms.len() as int) =~= forms@);
    r
}

fn clone_tmv(k: &TmvKey) -> (r: TmvKey)
    ensures
        r == *k,
{
    (k.0.clone(), k.1.clone(), k.2.clone())
}

fn sort_tmv(keys: &Vec<TmvKey>) -> (r: Vec<TmvKey>)
    ensures
        tmv_views(r@) == tmv_sort(tmv_views(keys@)),
{
    let ghost ks = tmv_views(keys@);
    let mut out: Vec<TmvKey> = Vec::new();
    let mut i: usize = 0;
    assert(ks.take(0) =~= Seq::<TmvText>::empty());
    assert(tmv_views(out@) =~= Seq::<TmvText>::empty());
    while i < keys.len()
        invariant
            ks == tmv_views(keys@),
            i <= keys@.len(),
            tmv_views(out@) == tmv_sort(ks.take(i as int)),
        decreases keys.len() - i,
    {
        let x = clone_tmv(&keys[i]);
        let ghost xv = (x.0@, x.1@, x.2@);
        let ghost s = tmv_views(out@);
        assert(ks.take(i + 1).drop_last() =~= ks.take(i as int));
        assert(ks.take(i + 1).last() == xv);
        let mut p = out.len();
        assert(s.take(p as int) =~= s);
        assert(s.skip(p as int) =~= Seq::<TmvText>::empty());
        assert(tmv_insert(s, xv) =~= tmv_insert(s.take(p as int), xv) + s.skip(p as int));
        while p > 0 && !tmv_le_exec(&out[p - 1], &x)
            invariant
                s == tmv_views(out@),
                xv == (x.0@, x.1@, x.2@),
                p <= out@.len(),
                tmv_insert(s, xv) == tmv_insert(s.take(p as int), xv) + s.skip(p as int),
            decreases p,
        {
            assert(s.take(p as int).drop_last() =~= s.take(p - 1));
            assert(s.take(p as int).last() == s[p - 1]);
            assert(s.skip(p - 1) =~= seq![s[p - 1]] + s.skip(p as int));
            assert(tmv_insert(s.take(p as int), xv) == tmv_insert(s.take(p - 1), xv).push(
                s[p - 1],
            ));
            assert(tmv_insert(s, xv) =~= tmv_insert(s.take(p - 1), xv) + s.skip(p - 1));
            p = p - 1;
        }
        if p > 0 {
            assert(s.take(p as int).last() == s[p - 1]);
        }
        assert(tmv_insert(s.take(p as int), xv) =~= s.take(p as int).push(xv));
        out.insert(p, x);
        assert(tmv_views(out@) =~= s.take(p as int).push(xv) + s.skip(p as int));
        i = i + 1;
    }
    assert(ks.take(keys.len() as int) =~= ks);
    out
}

/// The person rows a mood can have: 2nd and 3rd for the imperative, all
/// three otherwise.
pub open spec fn person_candidates(m: Seq<char>) -> Seq<Seq<char>> {
    if m == "imp"@ {
        seq!["2"@, "3"@]
    } else {
        seq!["1"@, "2"@, "3"@]
    }
}

/// A form belongs to the sub-table of a key.
pub open spec fn in_group(f: Form, key: TmvText) -> bool {
    has_text(f.tense_tag, key.0) && has_text(f.mood_tag, key.1) && has_text(f.voice_tag, key.2)
}

/// Some form of the sub-table has person `p`.
pub open spec fn person_present(forms: Seq<Form>, key: TmvText, p: Seq<char>) -> bool {
    exists|i: int| 0 <= i < forms.len() && in_group(#[trigger] forms[i], key) && has_text(forms[i].person_tag, p)
}

/// The candidates that some form of the sub-table has, in order.
pub open spec fn persons_present(forms: Seq<Form>, key: TmvText, cands: Seq<Seq<char>>) -> Seq<
    Seq<char>,
>
    decreases cands.len(),
{
    if cands.len() == 0 {
        Seq::empty()
    } else {
        let prev = persons_present(forms, key, cands.drop_last());
        if person_present(forms, key, cands.last()) {
            prev.push(cands.last())
        } else {
            prev
        }
    }
}

/// The person rows of a key's sub-table.
pub open spec fn key_persons(forms: Seq<Form>, key: TmvText) -> Seq<Seq<char>> {
    persons_present(forms, key, person_candidates(key.1))
}

/// The first form of the sub-table with person `p` and number `n`.
pub open spec fn first_verb(forms: Seq<Form>, key: TmvText, p: Seq<char>, n: Seq<char>) -> Option<
    Form,
>
    decreases forms.len(),
{
    if forms.len() == 0 {
        None
    } else if in_group(forms[0], key) && has_text(forms[0].person_tag, p) && has_text(
        forms[0].number_tag,
        n,
    ) {
        Some(forms[0])
    } else {
        first_verb(forms.drop_first(), key, p, n)
    }
}

/// The keys whose sub-table has at least one person row.
pub open spec fn kept_keys(forms: Seq<Form>, keys: Seq<TmvText>) -> Seq<TmvText>
    decreases keys.len(),
{
    if keys.len() == 0 {
        Seq::empty()
    } else {
        let prev = kept_keys(forms, keys.drop_last());
        if key_persons(forms, keys.last()).len() > 0 {
            prev.push(keys.last())
        } else {
            prev
        }
    }
}

/// What the sub-table of a key holds.
pub open spec fn verb_table_ok(
    t: ParadigmTable,
    lemma: Lemma,
    forms: Seq<Form>,
    dual: bool,
    lang: UiLanguage,
    key: TmvText,
) -> bool {
    let ps = key_persons(forms, key);
    let nums = number_keys(dual);
    &&& t.lemma == lemma
    &&& has_text(
        t.title,
        tense_label_of(key.0, lang) + ", "@ + mood_label_of(key.1, lang) + ", "@ + voice_label_of(
            key.2,
            lang,
        ),
    )
    &&& has_text(t.tense_key, key.0)
    &&& has_text(t.mood_key, key.1)
    &&& has_text(t.voice_key, key.2)
    &&& t.col_headers@.len() == nums.len()
    &&& forall|j: int|
        0 <= j < nums.len() ==> (#[trigger] t.col_headers@[j])@ == num_label_of(nums[j], lang)
    &&& t.row_headers@.len() == ps.len()
    &&& forall|r: int|
        0 <= r < ps.len() ==> (#[trigger] t.row_headers@[r])@ == person_label_of(ps[r], lang)
    &&& t.cells@.len() == ps.len()
    &&& forall|r: int| 0 <= r < ps.len() ==> (#[trigger] t.cells@[r])@.len() == nums.len()
    &&& forall|r: int, j: int|
        0 <= r < ps.len() && 0 <= j < nums.len() ==> (#[trigger] t.cells@[r]@[j]).form
            == first_verb(forms, key, ps[r], nums[j])
}

fn form_in_group(f: &Form, key: &TmvKey) -> (r: bool)
    ensures
        r == in_group(*f, (key.0@, key.1@, key.2@)),
{
    opt_str_is(&f.tense_tag, key.0.as_str()) && opt_str_is(&f.mood_tag, key.1.as_str())
        && opt_str_is(&f.voice_tag, key.2.as_str())
}

fn has_person(forms: &[Form], key: &TmvKey, p: &str) -> (r: bool)
    ensures
        r == person_present(forms@, (key.0@, key.1@, key.2@), p@),
{
    let ghost kv = (key.0@, key.1@, key.2@);
    let mut i: usize = 0;
    while i < forms.len()
        invariant
            kv == (key.0@, key.1@, key.2@),
            i <= forms@.len(),
            forall|j: int|
                0 <= j < i ==> !(in_group(#[trigger] forms@[j], kv) && has_text(
                    forms@[j].person_tag,
                    p@,
                )),
        decreases forms.len() - i,
    {
        if form_in_group(&forms[i], key) && opt_str_is(&forms[i].person_tag, p) {
            return true;
        }
        i = i + 1;
    }
    false
}

fn find_verb(forms: &[Form], key: &TmvKey, p: &str, n: &str) -> (r: Option<Form>)
    ensures
        r == first_verb(forms@, (key.0@, key.1@, key.2@), p@, n@),
{
    let ghost kv = (key.0@, key.1@, key.2@);
    let mut i: usize = 0;
    assert(forms@.skip(0) =~= forms@);
    while i < forms.len()
        invariant
            kv == (key.0@, key.1@, key.2@),
            i <= forms@.len(),
            first_verb(forms@, kv, p@, n@) == first_verb(forms@.skip(i as int), kv, p@, n@),
        decreases forms.len() - i,
    {
        let f = &forms[i];
        assert(forms@.skip(i as int)[0] == forms@[i as int]);
        assert(forms@.skip(i as int).drop_first() =~= forms@.skip(i + 1));
        if form_in_group(f, key) && opt_str_is(&f.person_tag, p) && opt_str_is(&f.number_tag, n) {
            return Some(f.duplicate());
        }
        i = i + 1;
    }
    None
}

fn key_person_rows(forms: &[Form], key: &TmvKey) -> (r: Vec<&'static str>)
    ensures
        str_views(r@) == key_persons(forms@, (key.0@, key.1@, key.2@)),
{
    let ghost kv = (key.0@, key.1@, key.2@);
    let cands: Vec<&'static str> = if str_eq(key.1.as_str(), "imp") {
        vec!["2", "3"]
    } else {
        vec!["1", "2", "3"]
    };
    let ghost cs = person_candidates(key.1@);
    assert(str_views(cands@) =~= cs);
    let mut r: Vec<&'static str> = Vec::new();
    let mut i: usize = 0;
    assert(cs.take(0) =~= Seq::<Seq<char>>::empty());
    assert(str_views(r@) =~= Seq::<Seq<char>>::empty());
    while i < cands.len()
        invariant
            kv == (key.0@, key.1@, key.2@),
            cs == person_candidates(key.1@),
            str_views(cands@) == cs,
            i <= cands@.len(),
            str_views(r@) == persons_present(forms@, kv, cs.take(i as int)),
        decreases cands.len() - i,
    {
        let p = cands[i];
        assert(cs.take(i + 1).drop_last() =~= cs.take(i as int));
        assert(cs.take(i + 1).last() == p@);
        if has_person(forms, key, p) {
            r.push(p);
            assert(str_views(r@) =~= persons_present(forms@, kv, cs.take(i as int)).push(p@));
        }
        i = i + 1;
    }
    assert(cs.take(cands.len() as int) =~= cs);
    r
}

/// `a`, `b`, `c` separated by a comma and a space.
fn comma3(a: &str, b: &str, c: &str) -> (r: String)
    ensures
        r@ == a@ + ", "@ + b@ + ", "@ + c@,
{
    let mut r = String::from_str(a);
    r.append(", ");
    r.append(b);
    r.append(", ");
    r.append(c);
    r
}

fn verb_table(
    lemma: &Lemma,
    forms: &[Form],
    numbers: &Vec<&'static str>,
    dual: bool,
    lang: &UiLanguage,
    key: &TmvKey,
) -> (r: Option<ParadigmTable>)
    requires
        str_views(numbers@) == number_keys(dual),
    ensures
        r is None <==> key_persons(forms@, (key.0@, key.1@, key.2@)).len() == 0,
        r matches Some(t) ==> verb_table_ok(
            t,
            *lemma,
            forms@,
            dual,
            *lang,
            (key.0@, key.1@, key.2@),
        ),
{
    let ghost kv = (key.0@, key.1@, key.2@);
    let ghost nums = number_keys(dual);
    let persons = key_person_rows(forms, key);
    let ghost ps = key_persons(forms@, kv);
    if persons.len() == 0 {
        return None;
    }
    let mut col_headers: Vec<String> = Vec::new();
    let mut j: usize = 0;
    while j < numbers.len()
        invariant
            str_views(numbers@) == nums,
            j <= numbers@.len(),
            col_headers@.len() == j,
            forall|q: int|
                0 <= q < j ==> (#[trigger] col_headers@[q])@ == num_label_of(nums[q], *lang),
        decreases numbers.len() - j,
    {
        assert(numbers@[j as int]@ == nums[j as int]);
        col_headers.push(String::from_str(num_label(numbers[j], lang)));
        j = j + 1;
    }
    let mut row_headers: Vec<String> = Vec::new();
    let mut cells: Vec<Vec<ParadigmCell>> = Vec::new();
    let mut r: usize = 0;
    while r < persons.len()
        invariant
            kv == (key.0@, key.1@, key.2@),
            str_views(numbers@) == nums,
            str_views(persons@) == ps,
            r <= persons@.len(),
            row_headers@.len() == r,
            cells@.len() == r,
            forall|q: int|
                0 <= q < r ==> (#[trigger] row_headers@[q])@ == person_label_of(ps[q], *lang),
            forall|q: int| 0 <= q < r ==> (#[trigger] cells@[q])@.len() == nums.len(),
            forall|q: int, x: int|
                0 <= q < r && 0 <= x < nums.len() ==> (#[trigger] cells@[q]@[x]).form
                    == first_verb(forms@, kv, ps[q], nums[x]),
        decreases persons.len() - r,
    {
        let p = persons[r];
        assert(p@ == ps[r as int]);
        row_headers.push(String::from_str(person_label(p, lang)));
        let mut row: Vec<ParadigmCell> = Vec::new();
        let mut j: usize = 0;
        while j < numbers.len()
            invariant
                kv == (key.0@, key.1@, key.2@),
                str_views(numbers@) == nums,
                j <= numbers@.len(),
                row@.len() == j,
                forall|x: int|
                    0 <= x < j ==> (#[trigger] row@[x]).form == first_verb(
                        forms@,
                        kv,
                        p@,
                        nums[x],
                    ),
            decreases numbers.len() - j,
        {
            assert(numbers@[j as int]@ == nums[j as int]);
            let form = find_verb(forms, key, p, numbers[j]);
            row.push(ParadigmCell { form });
            j = j + 1;
        }
        cells.push(row);
        r = r + 1;
    }
    let title = comma3(
        tense_label(key.0.as_str(), lang),
        mood_label(key.1.as_str(), lang),
        voice_label(key.2.as_str(), lang),
    );
    Some(
        ParadigmTable {
            lemma: lemma.duplicate(),
            title: Some(title),
            tense_key: Some(key.0.clone()),
            mood_key: Some(key.1.clone()),
            voice_key: Some(key.2.clone()),
            col_headers,
            row_headers,
            cells,
        },
    )
}

// ── Infinitives ────────────────────────────────────────────────────────────

/// A (tense, voice) key, as text.
pub type TvText = (Seq<char>, Seq<char>);

/// A (tense, voice) key.
pub type TvKey = (String, String);

/// An infinitive form.
pub open spec fn infinitive(f: Form) -> bool {
    has_text(f.mood_tag, "inf"@)
}

/// Some form is an infinitive.
pub open spec fn has_infinitive(forms: Seq<Form>) -> bool {
    exists|i: int| 0 <= i < forms.len() && infinitive(#[trigger] forms[i])
}

pub open spec fn tv_of(f: Form) -> TvText {
    (text_or_empty(f.tense_tag), text_or_empty(f.voice_tag))
}

pub open spec fn tv_views(s: Seq<TvKey>) -> Seq<TvText> {
    Seq::new(s.len(), |i: int| (s[i].0@, s[i].1@))
}

/// The distinct keys of the infinitives, in order of first occurrence.
pub open spec fn infinitive_keys(forms: Seq<Form>) -> Seq<TvText>
    decreases forms.len(),
{
    if forms.len() == 0 {
        Seq::empty()
    } else {
        let prev = infinitive_keys(forms.drop_last());
        let f = forms.last();
        if infinitive(f) && !prev.contains(tv_of(f)) {
            prev.push(tv_of(f))
        } else {
            prev
        }
    }
}

/// Display order of infinitive keys: by tense, then voice.
pub open spec fn tv_le(a: TvText, b: TvText) -> bool {
    let ta = tense_order_of(a.0);
    let tb = tense_order_of(b.0);
    ta < tb || (ta == tb && voice_order_of(a.1) <= voice_order_of(b.1))
}

/// `x` inserted into `s` after every key that does not come after it.
pub open spec fn tv_insert(s: Seq<TvText>, x: TvText) -> Seq<TvText>
    decreases s.len(),
{
    if s.len() == 0 {
        seq![x]
    } else if !tv_le(s.last(), x) {
        tv_insert(s.drop_last(), x).push(s.last())
    } else {
        s.push(x)
    }
}

/// Stable sort of infinitive keys into display order.
pub open spec fn tv_sort(s: Seq<TvText>) -> Seq<TvText>
    decreases s.len(),
{
    if s.len() == 0 {
        s
    } else {
        tv_insert(tv_sort(s.drop_last()), s.last())
    }
}

/// The first infinitive with tense `t` and voice `v`.
pub open spec fn first_infinitive(forms: Seq<Form>, key: TvText) -> Option<Form>
    decreases forms.len(),
{
    if forms.len() == 0 {
        None
    } else if infinitive(forms[0]) && has_text(forms[0].tense_tag, key.0) && has_text(
        forms[0].voice_tag,
        key.1,
    ) {
        Some(forms[0])
    } else {
        first_infinitive(forms.drop_first(), key)
    }
}

/// The title of the infinitive table.
pub open spec fn infinitive_title(lang: UiLanguage) -> Seq<char> {
    match lang {
        UiLanguage::Ru => "Инфинитив"@,
        UiLanguage::En => "Infinitive"@,
    }
}

/// What the infinitive table holds: one row, a column per (tense, voice).
pub open spec fn infinitive_table_ok(
    t: ParadigmTable,
    lemma: Lemma,
    forms: Seq<Form>,
    lang: UiLanguage,
) -> bool {
    let ks = tv_sort(infinitive_keys(forms));
    &&& t.lemma == lemma
    &&& has_text(t.title, infinitive_title(lang))
    &&& t.tense_key is None
    &&& has_text(t.mood_key, "inf"@)
    &&& t.voice_key is None
    &&& t.col_headers@.len() == ks.len()
    &&& forall|j: int|
        0 <= j < ks.len() ==> (#[trigger] t.col_headers@[j])@ == tense_label_of(ks[j].0, lang)
            + " "@ + voice_label_of(ks[j].1, lang)
    &&& t.row_headers@.len() == 1
    &&& t.row_headers@[0]@ == Seq::<char>::empty()
    &&& t.cells@.len() == 1
    &&& t.cells@[0]@.len() == ks.len()
    &&& forall|j: int|
        0 <= j < ks.len() ==> (#[trigger] t.cells@[0]@[j]).form == first_infinitive(forms, ks[j])
}

fn any_infinitive(forms: &[Form]) -> (r: bool)
    ensures
        r == has_infinitive(forms@),
{
    let mut i: usize = 0;
    while i < forms.len()
        invariant
            i <= forms@.len(),
            forall|j: int| 0 <= j < i ==> !infinitive(#[trigger] forms@[j]),
        decreases forms.len() - i,
    {
        if opt_str_is(&forms[i].mood_tag, "inf") {
            return true;
        }
        i = i + 1;
    }
    false
}

fn has_tv(keys: &Vec<TvKey>, x: &TvKey) -> (r: bool)
    ensures
        r == tv_views(keys@).contains((x.0@, x.1@)),
{
    let mut i: usize = 0;
    while i < keys.len()
        invariant
            i <= keys.len(),
            forall|j: int| 0 <= j < i ==> tv_views(keys@)[j] != (x.0@, x.1@),
        decreases keys.len() - i,
    {
        let k = &keys[i];
        if str_eq(k.0.as_str(), x.0.as_str()) && str_eq(k.1.as_str(), x.1.as_str()) {
            assert(tv_views(keys@)[i as int] == (x.0@, x.1@));
            return true;
        }
        i = i + 1;
    }
    false
}

fn collect_infinitive_keys(forms: &[Form]) -> (r: Vec<TvKey>)
    ensures
        tv_views(r@) == infinitive_keys(forms@),
{
    let mut r: Vec<TvKey> = Vec::new();
    let mut i: usize = 0;
    assert(forms@.take(0) =~= Seq::<Form>::empty());
    assert(tv_views(r@) =~= Seq::<TvText>::empty());
    while i < forms.len()
        invariant
            i <= forms@.len(),
            tv_views(r@) == infinitive_keys(forms@.take(i as int)),
        decreases forms.len() - i,
    {
        let f = &forms[i];
        assert(forms@.take(i + 1).drop_last() =~= forms@.take(i as int));
        assert(forms@.take(i + 1).last() == forms@[i as int]);
        if opt_str_is(&f.mood_tag, "inf") {
            let key = (text_of(&f.tense_tag), text_of(&f.voice_tag));
            if !has_tv(&r, &key) {
                r.push(key);
                assert(tv_views(r@) =~= infinitive_keys(forms@.take(i as int)).push(
                    tv_of(forms@[i as int]),
                ));
            }
        }
        i = i + 1;
    }
    assert(forms@.take(forms.len() as int) =~= forms@);
    r
}

fn tv_le_exec(a: &TvKey, b: &TvKey) -> (r: bool)
    ensures
        r == tv_le((a.0@, a.1@), (b.0@, b.1@)),
{
    let ta = tense_order(a.0.as_str());
    let tb = tense_order(b.0.as_str());
    ta < tb || (ta == tb && voice_order(a.1.as_str()) <= voice_order(b.1.as_str()))
}

fn sort_tv(keys: &Vec<TvKey>) -> (r: Vec<TvKey>)
    ensures
        tv_views(r@) == tv_sort(tv_views(keys@)),
{
    let ghost ks = tv_views(keys@);
    let mut out: Vec<TvKey> = Vec::new();
    let mut i: usize = 0;
    assert(ks.take(0) =~= Seq::<TvText>::empty());
    assert(tv_views(out@) =~= Seq::<TvText>::empty());
    while i < keys.len()
        invariant
            ks == tv_views(keys@),
            i <= keys@.len(),
            tv_views(out@) == tv_sort(ks.take(i as int)),
        decreases keys.len() - i,
    {
        let x = (keys[i].0.clone(), keys[i].1.clone());
        let ghost xv = (x.0@, x.1@);
        let ghost s = tv_views(out@);
        assert(ks.take(i + 1).drop_last() =~= ks.take(i as int));
        assert(ks.take(i + 1).last() == xv);
        let mut p = out.len();
        assert(s.take(p as int) =~= s);
        assert(s.skip(p as int) =~= Seq::<TvText>::empty());
        assert(tv_insert(s, xv) =~= tv_insert(s.take(p as int), xv) + s.skip(p as int));
        while p > 0 && !tv_le_exec(&out[p - 1], &x)
            invariant
                s == tv_views(out@),
                xv == (x.0@, x.1@),
                p <= out@.len(),
                tv_insert(s, xv) == tv_insert(s.take(p as int), xv) + s.skip(p as int),
            decreases p,
        {
            assert(s.take(p as int).drop_last() =~= s.take(p - 1));
            assert(s.take(p as int).last() == s[p - 1]);
            assert(s.skip(p - 1) =~= seq![s[p - 1]] + s.skip(p as int));
            assert(tv_insert(s.take(p as int), xv) == tv_insert(s.take(p - 1), xv).push(
                s[p - 1],
            ));
            assert(tv_insert(s, xv) =~= tv_insert(s.take(p - 1), xv) + s.skip(p - 1));
            p = p - 1;
        }
        if p > 0 {
            assert(s.take(p as int).last() == s[p - 1]);
        }
        assert(tv_insert(s.take(p as int), xv) =~= s.take(p as int).push(xv));
        out.insert(p, x);
        assert(tv_views(out@) =~= s.take(p as int).push(xv) + s.skip(p as int));
        i = i + 1;
    }
    assert(ks.take(keys.len() as int) =~= ks);
    out
}

fn find_infinitive(forms: &[Form], key: &TvKey) -> (r: Option<Form>)
    ensures
        r == first_infinitive(forms@, (key.0@, key.1@)),
{
    let ghost kv = (key.0@, key.1@);
    let mut i: usize = 0;
    assert(forms@.skip(0) =~= forms@);
    while i < forms.len()
        invariant
            kv == (key.0@, key.1@),
            i <= forms@.len(),
            first_infinitive(forms@, kv) == first_infinitive(forms@.skip(i as int), kv),
        decreases forms.len() - i,
    {
        let f = &forms[i];
        assert(forms@.skip(i as int)[0] == forms@[i as int]);
        assert(forms@.skip(i as int).drop_first() =~= forms@.skip(i + 1));
        if opt_str_is(&f.mood_tag, "inf") && opt_str_is(&f.tense_tag, key.0.as_str())
            && opt_str_is(&f.voice_tag, key.1.as_str()) {
            return Some(f.duplicate());
        }
        i = i + 1;
    }
    None
}

fn infinitive_table(lemma: &Lemma, forms: &[Form], lang: &UiLanguage) -> (t: ParadigmTable)
    ensures
        infinitive_table_ok(t, *lemma, forms@, *lang),
{
    let keys = collect_infinitive_keys(forms);
    let sorted = sort_tv(&keys);
    let ghost ks = tv_sort(infinitive_keys(forms@));
    let mut col_headers: Vec<String> = Vec::new();
    let mut row: Vec<ParadigmCell> = Vec::new();
    let mut j: usize = 0;
    while j < sorted.len()
        invariant
            tv_views(sorted@) == ks,
            j <= sorted@.len(),
            col_headers@.len() == j,
            row@.len() == j,
            forall|q: int|
                0 <= q < j ==> (#[trigger] col_headers@[q])@ == tense_label_of(ks[q].0, *lang)
                    + " "@ + voice_label_of(ks[q].1, *lang),
            forall|q: int| 0 <= q < j ==> (#[trigger] row@[q]).form == first_infinitive(forms@, ks[q]),
        decreases sorted.len() - j,
    {
        let k = &sorted[j];
        assert(ks[j as int] == (k.0@, k.1@));
        col_headers.push(
            spaced(tense_label(k.0.as_str(), lang), voice_label(k.1.as_str(), lang)),
        );
        let form = find_infinitive(forms, k);
        row.push(ParadigmCell { form });
        j = j + 1;
    }
    let title = match lang {
        UiLanguage::Ru => String::from_str("Инфинитив"),
        UiLanguage::En => String::from_str("Infinitive"),
    };
    let mut row_headers: Vec<String> = Vec::new();
    row_headers.push(String::new());
    let mut cells: Vec<Vec<ParadigmCell>> = Vec::new();
    cells.push(row);
    ParadigmTable {
        lemma: lemma.duplicate(),
        title: Some(title),
        tense_key: None,
        mood_key: Some(String::from_str("inf")),
        voice_key: None,
        col_headers,
        row_headers,
        cells,
    }
}

// ── All verb tables ────────────────────────────────────────────────────────

/// What the verb tables built from `forms` hold: one table per key that has
/// person rows, in display order, then the infinitive table if there are
/// infinitives.
pub open spec fn verb_tables_ok(
    r: Seq<ParadigmTable>,
    lemma: Lemma,
    forms: Seq<Form>,
    dual: bool,
    lang: UiLanguage,
) -> bool {
    let kept = kept_keys(forms, tmv_sort(finite_keys(forms)));
    &&& r.len() == kept.len() + if has_infinitive(forms) {
        1int
    } else {
        0int
    }
    &&& forall|i: int|
        0 <= i < kept.len() ==> verb_table_ok(#[trigger] r[i], lemma, forms, dual, lang, kept[i])
    &&& has_infinitive(forms) ==> infinitive_table_ok(r[kept.len() as int], lemma, forms, lang)
}

/// Build the verb paradigm tables: one per tense × mood × voice (rows =
/// person, cols = number), then the infinitives in one extra table.
pub fn build_verb_paradigms(
    lemma: Lemma,
    forms: &[Form],
    include_dual: bool,
    lang: &UiLanguage,
) -> (r: Vec<ParadigmTable>)
    ensures
        verb_tables_ok(r@, lemma, forms@, include_dual, *lang),
{
    let keys = collect_finite_keys(forms);
    let sorted = sort_tmv(&keys);
    let ghost ks = tmv_sort(finite_keys(forms@));
    let numbers = number_list(include_dual);
    let mut tables: Vec<ParadigmTable> = Vec::new();
    let mut i: usize = 0;
    assert(ks.take(0) =~= Seq::<TmvText>::empty());
    while i < sorted.len()
        invariant
            tmv_views(sorted@) == ks,
            str_views(numbers@) == number_keys(include_dual),
            i <= sorted@.len(),
            tables@.len() == kept_keys(forms@, ks.take(i as int)).len(),
            forall|q: int|
                0 <= q < tables@.len() ==> verb_table_ok(
                    #[trigger] tables@[q],
                    lemma,
                    forms@,
                    include_dual,
                    *lang,
                    kept_keys(forms@, ks.take(i as int))[q],
                ),
        decreases sorted.len() - i,
    {
        let key = &sorted[i];
        assert(ks.take(i + 1).drop_last() =~= ks.take(i as int));
        assert(ks.take(i + 1).last() == (key.0@, key.1@, key.2@));
        match verb_table(&lemma, forms, &numbers, include_dual, lang, key) {
            Some(t) => {
                tables.push(t);
            },
            None => {},
        }
        i = i + 1;
    }
    assert(ks.take(sorted.len() as int) =~= ks);
    if any_infinitive(forms) {
        let t = infinitive_table(&lemma, forms, lang);
        tables.push(t);
    }
    tables
}

// ── Label tables ───────────────────────────────────────────────────────────

/// Case-row label; `?` for an unknown case.
pub open spec fn case_label_of(s: Seq<char>, lang: UiLanguage) -> Seq<char> {
    match lang {
        UiLanguage::En => {
            if s == "nom"@ {
                "Nom"@
            } else if s == "gen"@ {
                "Gen"@
            } else if s == "dat"@ {
                "Dat"@
            } else if s == "acc"@ {
                "Acc"@
            } else if s == "voc"@ {
                "Voc"@
            } else {
                "?"@
            }
        },
        UiLanguage::Ru => {
            if s == "nom"@ {
                "Им."@
            } else if s == "gen"@ {
                "Рд."@
            } else if s == "dat"@ {
                "Дт."@
            } else if s == "acc"@ {
                "Вн."@
            } else if s == "voc"@ {
                "Зв."@
            } else {
                "?"@
            }
        },
    }
}

fn case_label(s: &str, lang: &UiLanguage) -> (r: &'static str)
    ensures
        r@ == case_label_of(s@, *lang),
{
    match lang {
        UiLanguage::En => {
            if str_eq(s, "nom") {
                "Nom"
            } else if str_eq(s, "gen") {
                "Gen"
            } else if str_eq(s, "dat") {
                "Dat"
            } else if str_eq(s, "acc") {
                "Acc"
            } else if str_eq(s, "voc") {
                "Voc"
            } else {
                "?"
            }
        },
        UiLanguage::Ru => {
            if str_eq(s, "nom") {
                "Им."
            } else if str_eq(s, "gen") {
                "Рд."
            } else if str_eq(s, "dat") {
                "Дт."
            } else if str_eq(s, "acc") {
                "Вн."
            } else if str_eq(s, "voc") {
                "Зв."
            } else {
                "?"
            }
        },
    }
}

/// Number label; `?` for an unknown number.
pub open spec fn num_label_of(s: Seq<char>, lang: UiLanguage) -> Seq<char> {
    match lang {
        UiLanguage::En => {
            if s == "sg"@ {
                "Sg"@
            } else if s == "du"@ {
                "Du"@
            } else if s == "pl"@ {
                "Pl"@
            } else {
                "?"@
            }
        },
        UiLanguage::Ru => {
            if s == "sg"@ {
                "Ед."@
            } else if s == "du"@ {
                "Дв."@
            } else if s == "pl"@ {
                "Мн."@
            } else {
                "?"@
            }
        },
    }
}

pub fn num_label(s: &str, lang: &UiLanguage) -> (r: &'static str)
    ensures
        r@ == num_label_of(s@, *lang),
{
    match lang {
        UiLanguage::En => {
            if str_eq(s, "sg") {
                "Sg"
            } else if str_eq(s, "du") {
                "Du"
            } else if str_eq(s, "pl") {
                "Pl"
            } else {
                "?"
            }
        },
        UiLanguage::Ru => {
            if str_eq(s, "sg") {
                "Ед."
            } else if str_eq(s, "du") {
                "Дв."
            } else if str_eq(s, "pl") {
                "Мн."
            } else {
                "?"
            }
        },
    }
}

/// Gender label; `?` for an unknown gender.
pub open spec fn gender_label_of(s: Seq<char>, lang: UiLanguage) -> Seq<char> {
    match lang {
        UiLanguage::En => {
            if s == "m"@ {
                "M"@
            } else if s == "f"@ {
                "F"@
            } else if s == "n"@ {
                "N"@
            } else {
                "?"@
            }
        },
        UiLanguage::Ru => {
            if s == "m"@ {
                "М.р."@
            } else if s == "f"@ {
                "Ж.р."@
            } else if s == "n"@ {
                "Ср.р."@
            } else {
                "?"@
            }
        },
    }
}

fn gender_label(s: &str, lang: &UiLanguage) -> (r: &'static str)
    ensures
        r@ == gender_label_of(s@, *lang),
{
    match lang {
        UiLanguage::En => {
            if str_eq(s, "m") {
                "M"
            } else if str_eq(s, "f") {
                "F"
            } else if str_eq(s, "n") {
                "N"
            } else {
                "?"
            }
        },
        UiLanguage::Ru => {
            if str_eq(s, "m") {
                "М.р."
            } else if str_eq(s, "f") {
                "Ж.р."
            } else if str_eq(s, "n") {
                "Ср.р."
            } else {
                "?"
            }
        },
    }
}

/// Person label; `?` for an unknown person.
pub open spec fn person_label_of(s: Seq<char>, lang: UiLanguage) -> Seq<char> {
    match lang {
        UiLanguage::En => {
            if s == "1"@ {
                "1st"@
            } else if s == "2"@ {
                "2nd"@
            } else if s == "3"@ {
                "3rd"@
            } else {
                "?"@
            }
        },
        UiLanguage::Ru => {
            if s == "1"@ {
                "1-е"@
            } else if s == "2"@ {
                "2-е"@
            } else if s == "3"@ {
                "3-е"@
            } else {
                "?"@
            }
        },
    }
}

fn person_label(s: &str, lang: &UiLanguage) -> (r: &'static str)
    ensures
        r@ == person_label_of(s@, *lang),
{
    match lang {
        UiLanguage::En => {
            if str_eq(s, "1") {
                "1st"
            } else if str_eq(s, "2") {
                "2nd"
            } else if str_eq(s, "3") {
                "3rd"
            } else {
                "?"
            }
        },
        UiLanguage::Ru => {
            if str_eq(s, "1") {
                "1-е"
            } else if str_eq(s, "2") {
                "2-е"
            } else if str_eq(s, "3") {
                "3-е"
            } else {
                "?"
            }
        },
    }
}

/// Tense label; other tags read as themselves.
pub open spec fn tense_label_of(s: Seq<char>, lang: UiLanguage) -> Seq<char> {
    match lang {
        UiLanguage::En => {
            if s == "pres"@ {
                "Pres"@
            } else if s == "imperf"@ {
                "Impf"@
            } else if s == "fut"@ {
                "Fut"@
            } else if s == "aor1"@ {
                "Aor.I"@
            } else if s == "aor2"@ {
                "Aor.II"@
            } else if s == "aor_pass"@ {
                "Aor.Pass"@
            } else if s == "perf"@ {
                "Perf"@
            } else if s == "pluperf"@ {
                "Plupf"@
            } else if s == "futperf"@ {
                "Fut.Pf"@
            } else {
                s
            }
        },
        UiLanguage::Ru => {
            if s == "pres"@ {
                "Наст."@
            } else if s == "imperf"@ {
                "Импф."@
            } else if s == "fut"@ {
                "Буд."@
            } else if s == "aor1"@ {
                "Аор.I"@
            } else if s == "aor2"@ {
                "Аор.II"@
            } else if s == "aor_pass"@ {
                "Аор.пас."@
            } else if s == "perf"@ {
                "Перф."@
            } else if s == "pluperf"@ {
                "Плкв."@
            } else if s == "futperf"@ {
                "Буд.перф."@
            } else {
                s
            }
        },
    }
}

pub fn tense_label<'a>(s: &'a str, lang: &UiLanguage) -> (r: &'a str)
    ensures
        r@ == tense_label_of(s@, *lang),
{
    match lang {
        UiLanguage::En => {
            if str_eq(s, "pres") {
                "Pres"
            } else if str_eq(s, "imperf") {
                "Impf"
            } else if str_eq(s, "fut") {
                "Fut"
            } else if str_eq(s, "aor1") {
                "Aor.I"
            } else if str_eq(s, "aor2") {
                "Aor.II"
            } else if str_eq(s, "aor_pass") {
                "Aor.Pass"
            } else if str_eq(s, "perf") {
                "Perf"
            } else if str_eq(s, "pluperf") {
                "Plupf"
            } else if str_eq(s, "futperf") {
                "Fut.Pf"
            } else {
                s
            }
        },
        UiLanguage::Ru => {
            if str_eq(s, "pres") {
                "Наст."
            } else if str_eq(s, "imperf") {
                "Импф."
            } else if str_eq(s, "fut") {
                "Буд."
            } else if str_eq(s, "aor1") {
                "Аор.I"
            } else if str_eq(s, "aor2") {
                "Аор.II"
            } else if str_eq(s, "aor_pass") {
                "Аор.пас."
            } else if str_eq(s, "perf") {
                "Перф."
            } else if str_eq(s, "pluperf") {
                "Плкв."
            } else if str_eq(s, "futperf") {
                "Буд.перф."
            } else {
                s
            }
        },
    }
}

/// Voice label; other tags read as themselves.
pub open spec fn voice_label_of(s: Seq<char>, lang: UiLanguage) -> Seq<char> {
    match lang {
        UiLanguage::En => {
            if s == "act"@ {
                "Act"@
            } else if s == "mid"@ {
                "Mid"@
            } else if s == "pass"@ {
                "Pass"@
            } else if s == "mid_pass"@ {
                "M/P"@
            } else {
                s
            }
        },
        UiLanguage::Ru => {
            if s == "act"@ {
                "Акт."@
            } else if s == "mid"@ {
                "Мед."@
            } else if s == "pass"@ {
                "Пас."@
            } else if s == "mid_pass"@ {
                "М/П"@
            } else {
                s
            }
        },
    }
}

pub fn voice_label<'a>(s: &'a str, lang: &UiLanguage) -> (r: &'a str)
    ensures
        r@ == voice_label_of(s@, *lang),
{
    match lang {
        UiLanguage::En => {
            if str_eq(s, "act") {
                "Act"
            } else if str_eq(s, "mid") {
                "Mid"
            } else if str_eq(s, "pass") {
                "Pass"
            } else if str_eq(s, "mid_pass") {
                "M/P"
            } else {
                s
            }
        },
        UiLanguage::Ru => {
            if str_eq(s, "act") {
                "Акт."
            } else if str_eq(s, "mid") {
                "Мед."
            } else if str_eq(s, "pass") {
                "Пас."
            } else if str_eq(s, "mid_pass") {
                "М/П"
            } else {
                s
            }
        },
    }
}

/// Mood label; other tags read as themselves.
pub open spec fn mood_label_of(s: Seq<char>, lang: UiLanguage) -> Seq<char> {
    match lang {
        UiLanguage::En => {
            if s == "ind"@ {
                "Ind"@
            } else if s == "subj"@ {
                "Subj"@
            } else if s == "opt"@ {
                "Opt"@
            } else if s == "imp"@ {
                "Imp"@
            } else {
                s
            }
        },
        UiLanguage::Ru => {
            if s == "ind"@ {
                "Изъяв."@
            } else if s == "subj"@ {
                "Сослаг."@
            } else if s == "opt"@ {
                "Желат."@
            } else if s == "imp"@ {
                "Повел."@
            } else {
                s
            }
        },
    }
}

pub fn mood_label<'a>(s: &'a str, lang: &UiLanguage) -> (r: &'a str)
    ensures
        r@ == mood_label_of(s@, *lang),
{
    match lang {
        UiLanguage::En => {
            if str_eq(s, "ind") {
                "Ind"
            } else if str_eq(s, "subj") {
                "Subj"
            } else if str_eq(s, "opt") {
                "Opt"
            } else if str_eq(s, "imp") {
                "Imp"
            } else {
                s
            }
        },
        UiLanguage::Ru => {
            if str_eq(s, "ind") {
                "Изъяв."
            } else if str_eq(s, "subj") {
                "Сослаг."
            } else if str_eq(s, "opt") {
                "Желат."
            } else if str_eq(s, "imp") {
                "Повел."
            } else {
                s
            }
        },
    }
}

/// Display rank of a tense; unknown tenses last.
pub open spec fn tense_order_of(s: Seq<char>) -> nat {
    if s == "pres"@ {
        0
    } else if s == "imperf"@ {
        1
    } else if s == "fut"@ {
        2
    } else if s == "aor1"@ {
        3
    } else if s == "aor2"@ {
        4
    } else if s == "aor_pass"@ {
        5
    } else if s == "perf"@ {
        6
    } else if s == "pluperf"@ {
        7
    } else if s == "futperf"@ {
        8
    } else {
        99
    }
}

pub fn tense_order(s: &str) -> (r: usize)
    ensures
        r == tense_order_of(s@),
{
    if str_eq(s, "pres") {
        0
    } else if str_eq(s, "imperf") {
        1
    } else if str_eq(s, "fut") {
        2
    } else if str_eq(s, "aor1") {
        3
    } else if str_eq(s, "aor2") {
        4
    } else if str_eq(s, "aor_pass") {
        5
    } else if str_eq(s, "perf") {
        6
    } else if str_eq(s, "pluperf") {
        7
    } else if str_eq(s, "futperf") {
        8
    } else {
        99
    }
}

/// Display rank of a voice; unknown voices last.
pub open spec fn voice_order_of(s: Seq<char>) -> nat {
    if s == "act"@ {
        0
    } else if s == "mid"@ {
        1
    } else if s == "pass"@ {
        2
    } else if s == "mid_pass"@ {
        3
    } else {
        4
    }
}

pub fn voice_order(s: &str) -> (r: usize)
    ensures
        r == voice_order_of(s@),
{
    if str_eq(s, "act") {
        0
    } else if str_eq(s, "mid") {
        1
    } else if str_eq(s, "pass") {
        2
    } else if str_eq(s, "mid_pass") {
        3
    } else {
        4
    }
}

/// Display rank of a mood; unknown moods last.
pub open spec fn mood_order_of(s: Seq<char>) -> nat {
    if s == "ind"@ {
        0
    } else if s == "subj"@ {
        1
    } else if s == "opt"@ {
        2
    } else if s == "imp"@ {
        3
    } else {
        4
    }
}

pub fn mood_order(s: &str) -> (r: usize)
    ensures
        r == mood_order_of(s@),
{
    if str_eq(s, "ind") {
        0
    } else if str_eq(s, "subj") {
        1
    } else if str_eq(s, "opt") {
        2
    } else if str_eq(s, "imp") {
        3
    } else {
        4
    }
}

// ── Properties of the tables ───────────────────────────────────────────────

/// The form found for a nominal cell is one of the forms and fits the cell;
/// none is found only when no form fits.
pub proof fn lemma_first_nominal(
    forms: Seq<Form>,
    case: Seq<char>,
    num: Seq<char>,
    gen: Seq<char>,
    any_gender: bool,
)
    ensures
        match first_nominal(forms, case, num, gen, any_gender) {
            Some(f) => forms.contains(f) && nominal_fit(f, case, num, gen, any_gender),
            None => forall|i: int|
                0 <= i < forms.len() ==> !nominal_fit(#[trigger] forms[i], case, num, gen, any_gender),
        },
    decreases forms.len(),
{
    if forms.len() > 0 {
        let rest = forms.drop_first();
        lemma_first_nominal(rest, case, num, gen, any_gender);
        if nominal_fit(forms[0], case, num, gen, any_gender) {
            assert(forms.contains(forms[0]));
        } else {
            match first_nominal(rest, case, num, gen, any_gender) {
                Some(f) => {
                    let k = choose|k: int| 0 <= k < rest.len() && rest[k] == f;
                    assert(forms[k + 1] == f);
                },
                None => {
                    assert forall|i: int| 0 <= i < forms.len() implies !nominal_fit(
                        #[trigger] forms[i],
                        case,
                        num,
                        gen,
                        any_gender,
                    ) by {
                        if i > 0 {
                            assert(forms[i] == rest[i - 1]);
                        }
                    }
                },
            }
        }
    }
}

/// Every cell of a nominal table holds a form of the lemma with the cell's
/// case and number (and gender, where the table has several), and a cell is
/// empty only when no form has them.
pub proof fn lemma_nominal_cells_fit(
    t: ParadigmTable,
    lemma: Lemma,
    forms: Seq<Form>,
    dual: bool,
    genders: Seq<Seq<char>>,
    lang: UiLanguage,
    r: int,
    k: int,
)
    requires
        nominal_table_ok(t, lemma, forms, dual, genders, lang),
        0 <= r < case_keys().len(),
        0 <= k < nominal_columns(number_keys(dual), genders).len(),
    ensures
        ({
            let col = nominal_columns(number_keys(dual), genders)[k];
            let any = genders.len() == 1;
            match t.cells@[r]@[k].form {
                Some(f) => forms.contains(f) && nominal_fit(f, case_keys()[r], col.0, col.1, any),
                None => forall|i: int|
                    0 <= i < forms.len() ==> !nominal_fit(
                        #[trigger] forms[i],
                        case_keys()[r],
                        col.0,
                        col.1,
                        any,
                    ),
            }
        }),
{
    let col = nominal_columns(number_keys(dual), genders)[k];
    assert(t.cells@[r]@[k].form == first_nominal(
        forms,
        case_keys()[r],
        col.0,
        col.1,
        genders.len() == 1,
    ));
    lemma_first_nominal(forms, case_keys()[r], col.0, col.1, genders.len() == 1);
}

/// The form found for a verb cell is one of the forms of the sub-table with
/// the cell's person and number; none is found only when there is none.
pub proof fn lemma_first_verb(forms: Seq<Form>, key: TmvText, p: Seq<char>, n: Seq<char>)
    ensures
        match first_verb(forms, key, p, n) {
            Some(f) => forms.contains(f) && in_group(f, key) && has_text(f.person_tag, p)
                && has_text(f.number_tag, n),
            None => forall|i: int|
                0 <= i < forms.len() ==> !(in_group(#[trigger] forms[i], key) && has_text(
                    forms[i].person_tag,
                    p,
                ) && has_text(forms[i].number_tag, n)),
        },
    decreases forms.len(),
{
    if forms.len() > 0 {
        let rest = forms.drop_first();
        lemma_first_verb(rest, key, p, n);
        if in_group(forms[0], key) && has_text(forms[0].person_tag, p) && has_text(
            forms[0].number_tag,
            n,
        ) {
            assert(forms.contains(forms[0]));
        } else {
            match first_verb(rest, key, p, n) {
                Some(f) => {
                    let k = choose|k: int| 0 <= k < rest.len() && rest[k] == f;
                    assert(forms[k + 1] == f);
                },
                None => {
                    assert forall|i: int| 0 <= i < forms.len() implies !(in_group(
                        #[trigger] forms[i],
                        key,
                    ) && has_text(forms[i].person_tag, p) && has_text(forms[i].number_tag, n)) by {
                        if i > 0 {
                            assert(forms[i] == rest[i - 1]);
                        }
                    }
                },
            }
        }
    }
}

/// The form found for an infinitive cell is an infinitive of the cell's
/// tense and voice; none is found only when there is none.
pub proof fn lemma_first_infinitive(forms: Seq<Form>, key: TvText)
    ensures
        match first_infinitive(forms, key) {
            Some(f) => forms.contains(f) && infinitive(f) && has_text(f.tense_tag, key.0)
                && has_text(f.voice_tag, key.1),
            None => forall|i: int|
                0 <= i < forms.len() ==> !(infinitive(#[trigger] forms[i]) && has_text(
                    forms[i].tense_tag,
                    key.0,
                ) && has_text(forms[i].voice_tag, key.1)),
        },
    decreases forms.len(),
{
    if forms.len() > 0 {
        let rest = forms.drop_first();
        lemma_first_infinitive(rest, key);
        if infinitive(forms[0]) && has_text(forms[0].tense_tag, key.0) && has_text(
            forms[0].voice_tag,
            key.1,
        ) {
            assert(forms.contains(forms[0]));
        } else {
            match first_infinitive(rest, key) {
                Some(f) => {
                    let k = choose|k: int| 0 <= k < rest.len() && rest[k] == f;
                    assert(forms[k + 1] == f);
                },
                None => {
                    assert forall|i: int| 0 <= i < forms.len() implies !(infinitive(
                        #[trigger] forms[i],
                    ) && has_text(forms[i].tense_tag, key.0) && has_text(forms[i].voice_tag, key.1))
                        by {
                        if i > 0 {
                            assert(forms[i] == rest[i - 1]);
                        }
                    }
                },
            }
        }
    }
}

/// Keys in display order.
pub open spec fn tmv_sorted(s: Seq<TmvText>) -> bool {
    forall|i: int, j: int| 0 <= i < j < s.len() ==> tmv_le(#[trigger] s[i], #[trigger] s[j])
}

proof fn lemma_tmv_insert(s: Seq<TmvText>, x: TmvText) -> (p: int)
    requires
        tmv_sorted(s),
    ensures
        0 <= p <= s.len(),
        tmv_insert(s, x) == s.take(p) + seq![x] + s.skip(p),
        tmv_sorted(tmv_insert(s, x)),
    decreases s.len(),
{
    if s.len() == 0 {
        assert(tmv_insert(s, x) =~= s.take(0) + seq![x] + s.skip(0));
        0
    } else if !tmv_le(s.last(), x) {
        let d = s.drop_last();
        assert(tmv_sorted(d)) by {
            assert forall|i: int, j: int| 0 <= i < j < d.len() implies tmv_le(
                #[trigger] d[i],
                #[trigger] d[j],
            ) by {
                assert(d[i] == s[i] && d[j] == s[j]);
            }
        }
        let q = lemma_tmv_insert(d, x);
        let r = tmv_insert(s, x);
        let m = tmv_insert(d, x);
        assert(r =~= s.take(q) + seq![x] + s.skip(q)) by {
            assert(s.take(q) =~= d.take(q));
            assert(s.skip(q) =~= d.skip(q).push(s.last()));
        }
        assert forall|i: int, j: int| 0 <= i < j < r.len() implies tmv_le(
            #[trigger] r[i],
            #[trigger] r[j],
        ) by {
            if j == r.len() - 1 {
                assert(r[j] == s.last());
                if i == q {
                    assert(r[i] == x);
                } else if i < q {
                    assert(r[i] == s[i]);
                    assert(tmv_le(s[i], s[s.len() - 1]));
                } else {
                    assert(r[i] == s[i - 1]);
                    assert(tmv_le(s[i - 1], s[s.len() - 1]));
                }
            } else {
                assert(r[i] == m[i] && r[j] == m[j]);
            }
        }
        q
    } else {
        let r = tmv_insert(s, x);
        assert(r =~= s.take(s.len() as int) + seq![x] + s.skip(s.len() as int));
        assert forall|i: int, j: int| 0 <= i < j < r.len() implies tmv_le(
            #[trigger] r[i],
            #[trigger] r[j],
        ) by {
            if j == s.len() {
                assert(r[i] == s[i]);
                if i < s.len() - 1 {
                    assert(tmv_le(s[i], s[s.len() - 1]));
                }
            } else {
                assert(r[i] == s[i] && r[j] == s[j]);
            }
        }
        s.len() as int
    }
}

/// Sorting the keys puts them in display order and keeps exactly the same
/// keys, each as often as before.
pub proof fn lemma_tmv_sort(s: Seq<TmvText>)
    ensures
        tmv_sorted(tmv_sort(s)),
        tmv_sort(s).to_multiset() == s.to_multiset(),
    decreases s.len(),
{
    broadcast use vstd::seq_lib::group_to_multiset_ensures;

    if s.len() > 0 {
        let d = s.drop_last();
        lemma_tmv_sort(d);
        let t = tmv_sort(d);
        let p = lemma_tmv_insert(t, s.last());
        let r = tmv_sort(s);
        assert(r =~= t.take(p) + seq![s.last()] + t.skip(p));
        assert(t =~= t.take(p) + t.skip(p));
        vstd::seq_lib::lemma_multiset_commutative(t.take(p), seq![s.last()] + t.skip(p));
        vstd::seq_lib::lemma_multiset_commutative(seq![s.last()], t.skip(p));
        vstd::seq_lib::lemma_multiset_commutative(t.take(p), t.skip(p));
        assert(t.take(p) + (seq![s.last()] + t.skip(p)) =~= r);
        assert(s =~= d.push(s.last()));
    }
}

proof fn lemma_finite_keys(forms: Seq<Form>)
    ensures
        finite_keys(forms).no_duplicates(),
        forall|k: TmvText|
            #[trigger] finite_keys(forms).contains(k) ==> exists|i: int|
                0 <= i < forms.len() && finite_mood(text_or_empty(forms[i].mood_tag)) && tmv_of(
                    #[trigger] forms[i],
                ) == k,
    decreases forms.len(),
{
    if forms.len() > 0 {
        let d = forms.drop_last();
        lemma_finite_keys(d);
        let prev = finite_keys(d);
        let r = finite_keys(forms);
        assert forall|k: TmvText| #[trigger] r.contains(k) implies exists|i: int|
            0 <= i < forms.len() && finite_mood(text_or_empty(forms[i].mood_tag)) && tmv_of(
                #[trigger] forms[i],
            ) == k by {
            let m = choose|m: int| 0 <= m < r.len() && r[m] == k;
            if m < prev.len() {
                assert(prev[m] == k);
                assert(prev.contains(k));
                let i = choose|i: int|
                    0 <= i < d.len() && finite_mood(text_or_empty(d[i].mood_tag)) && tmv_of(
                        #[trigger] d[i],
                    ) == k;
                assert(forms[i] == d[i]);
            } else {
                assert(forms[forms.len() - 1] == forms.last());
            }
        }
    }
}

proof fn lemma_kept_keys(forms: Seq<Form>, keys: Seq<TmvText>)
    requires
        tmv_sorted(keys),
        keys.no_duplicates(),
    ensures
        tmv_sorted(kept_keys(forms, keys)),
        kept_keys(forms, keys).no_duplicates(),
        forall|k: TmvText|
            #[trigger] kept_keys(forms, keys).contains(k) ==> keys.contains(k) && key_persons(
                forms,
                k,
            ).len() > 0,
    decreases keys.len(),
{
    if keys.len() > 0 {
        let d = keys.drop_last();
        assert(tmv_sorted(d)) by {
            assert forall|i: int, j: int| 0 <= i < j < d.len() implies tmv_le(
                #[trigger] d[i],
                #[trigger] d[j],
            ) by {
                assert(d[i] == keys[i] && d[j] == keys[j]);
            }
        }
        assert(d.no_duplicates()) by {
            assert forall|i: int, j: int| 0 <= i < d.len() && 0 <= j < d.len() && i != j implies d[i]
                != d[j] by {
                assert(d[i] == keys[i] && d[j] == keys[j]);
            }
        }
        lemma_kept_keys(forms, d);
        let prev = kept_keys(forms, d);
        let r = kept_keys(forms, keys);
        let x = keys.last();
        assert forall|k: TmvText| #[trigger] prev.contains(k) implies keys.contains(k) && k != x
            && tmv_le(k, x) by {
            let m = choose|m: int| 0 <= m < d.len() && d[m] == k;
            assert(keys[m] == k);
            assert(keys[keys.len() - 1] == x);
            assert(tmv_le(keys[m], keys[keys.len() - 1]));
        }
        assert forall|k: TmvText| #[trigger] r.contains(k) implies keys.contains(k) && key_persons(
            forms,
            k,
        ).len() > 0 by {
            let m = choose|m: int| 0 <= m < r.len() && r[m] == k;
            if m < prev.len() {
                assert(prev[m] == k);
                assert(prev.contains(k));
            } else {
                assert(keys[keys.len() - 1] == x);
            }
        }
        if key_persons(forms, x).len() > 0 {
            assert forall|i: int, j: int| 0 <= i < j < r.len() implies tmv_le(
                #[trigger] r[i],
                #[trigger] r[j],
            ) by {
                assert(r[i] == prev[i]);
                assert(prev.contains(prev[i]));
                if j < prev.len() {
                    assert(r[j] == prev[j]);
                }
            }
            assert forall|i: int, j: int| 0 <= i < r.len() && 0 <= j < r.len() && i != j implies r[i]
                != r[j] by {
                if i < prev.len() {
                    assert(prev.contains(prev[i]));
                }
                if j < prev.len() {
                    assert(prev.contains(prev[j]));
                }
            }
        }
    }
}

/// The tense, mood and voice a table is for, absent ones empty.
pub open spec fn table_key(t: ParadigmTable) -> TmvText {
    (text_or_empty(t.tense_key), text_or_empty(t.mood_key), text_or_empty(t.voice_key))
}

/// The person tables of a verb come one per tense, mood and voice that some
/// finite form has, none twice, each with at least one row, in display
/// order (by tense, then mood, then voice).
pub proof fn lemma_verb_tables_in_order(
    r: Seq<ParadigmTable>,
    lemma: Lemma,
    forms: Seq<Form>,
    dual: bool,
    lang: UiLanguage,
)
    requires
        verb_tables_ok(r, lemma, forms, dual, lang),
    ensures
        ({
            let n = kept_keys(forms, tmv_sort(finite_keys(forms))).len();
            &&& forall|i: int, j: int|
                0 <= i < j < n ==> tmv_le(table_key(#[trigger] r[i]), table_key(#[trigger] r[j]))
                    && table_key(r[i]) != table_key(r[j])
            &&& forall|i: int|
                0 <= i < n ==> key_persons(forms, table_key(#[trigger] r[i])).len() > 0 && exists|
                    f: int,
                |
                    0 <= f < forms.len() && finite_mood(text_or_empty(forms[f].mood_tag)) && tmv_of(
                        #[trigger] forms[f],
                    ) == table_key(r[i])
        }),
{
    let fk = finite_keys(forms);
    let ks = tmv_sort(fk);
    let kept = kept_keys(forms, ks);
    lemma_finite_keys(forms);
    lemma_tmv_sort(fk);
    fk.lemma_multiset_has_no_duplicates();
    assert forall|x: TmvText| ks.to_multiset().contains(x) implies ks.to_multiset().count(x)
        == 1 by {
        assert(fk.to_multiset().contains(x));
    }
    ks.lemma_multiset_has_no_duplicates_conv();
    lemma_kept_keys(forms, ks);
    assert forall|i: int| 0 <= i < kept.len() implies table_key(#[trigger] r[i]) == kept[i] by {
        assert(verb_table_ok(r[i], lemma, forms, dual, lang, kept[i]));
    }
    assert forall|i: int| 0 <= i < kept.len() implies key_persons(
        forms,
        table_key(#[trigger] r[i]),
    ).len() > 0 && exists|f: int|
        0 <= f < forms.len() && finite_mood(text_or_empty(forms[f].mood_tag)) && tmv_of(
            #[trigger] forms[f],
        ) == table_key(r[i]) by {
        broadcast use vstd::seq_lib::group_to_multiset_ensures;

        assert(kept.contains(kept[i]));
        assert(ks.contains(kept[i]));
        assert(ks.to_multiset().contains(kept[i]));
        assert(fk.to_multiset().contains(kept[i]));
        assert(fk.contains(kept[i]));
    }
}

/// Infinitive keys in display order.
pub open spec fn tv_sorted(s: Seq<TvText>) -> bool {
    forall|i: int, j: int| 0 <= i < j < s.len() ==> tv_le(#[trigger] s[i], #[trigger] s[j])
}

proof fn lemma_tv_insert(s: Seq<TvText>, x: TvText) -> (p: int)
    requires
        tv_sorted(s),
    ensures
        0 <= p <= s.len(),
        tv_insert(s, x) == s.take(p) + seq![x] + s.skip(p),
        tv_sorted(tv_insert(s, x)),
    decreases s.len(),
{
    if s.len() == 0 {
        assert(tv_insert(s, x) =~= s.take(0) + seq![x] + s.skip(0));
        0
    } else if !tv_le(s.last(), x) {
        let d = s.drop_last();
        assert(tv_sorted(d)) by {
            assert forall|i: int, j: int| 0 <= i < j < d.len() implies tv_le(
                #[trigger] d[i],
                #[trigger] d[j],
            ) by {
                assert(d[i] == s[i] && d[j] == s[j]);
            }
        }
        let q = lemma_tv_insert(d, x);
        let r = tv_insert(s, x);
        let m = tv_insert(d, x);
        assert(r =~= s.take(q) + seq![x] + s.skip(q)) by {
            assert(s.take(q) =~= d.take(q));
            assert(s.skip(q) =~= d.skip(q).push(s.last()));
        }
        assert forall|i: int, j: int| 0 <= i < j < r.len() implies tv_le(
            #[trigger] r[i],
            #[trigger] r[j],
        ) by {
            if j == r.len() - 1 {
                assert(r[j] == s.last());
                if i == q {
                    assert(r[i] == x);
                } else if i < q {
                    assert(r[i] == s[i]);
                    assert(tv_le(s[i], s[s.len() - 1]));
                } else {
                    assert(r[i] == s[i - 1]);
                    assert(tv_le(s[i - 1], s[s.len() - 1]));
                }
            } else {
                assert(r[i] == m[i] && r[j] == m[j]);
            }
        }
        q
    } else {
        let r = tv_insert(s, x);
        assert(r =~= s.take(s.len() as int) + seq![x] + s.skip(s.len() as int));
        assert forall|i: int, j: int| 0 <= i < j < r.len() implies tv_le(
            #[trigger] r[i],
            #[trigger] r[j],
        ) by {
            if j == s.len() {
                assert(r[i] == s[i]);
                if i < s.len() - 1 {
                    assert(tv_le(s[i], s[s.len() - 1]));
                }
            } else {
                assert(r[i] == s[i] && r[j] == s[j]);
            }
        }
        s.len() as int
    }
}

/// Sorting the infinitive keys puts them in display order and keeps exactly the same
/// keys, each as often as before.
pub proof fn lemma_tv_sort(s: Seq<TvText>)
    ensures
        tv_sorted(tv_sort(s)),
        tv_sort(s).to_multiset() == s.to_multiset(),
    decreases s.len(),
{
    broadcast use vstd::seq_lib::group_to_multiset_ensures;

    if s.len() > 0 {
        let d = s.drop_last();
        lemma_tv_sort(d);
        let t = tv_sort(d);
        let p = lemma_tv_insert(t, s.last());
        let r = tv_sort(s);
        assert(r =~= t.take(p) + seq![s.last()] + t.skip(p));
        assert(t =~= t.take(p) + t.skip(p));
        vstd::seq_lib::lemma_multiset_commutative(t.take(p), seq![s.last()] + t.skip(p));
        vstd::seq_lib::lemma_multiset_commutative(seq![s.last()], t.skip(p));
        vstd::seq_lib::lemma_multiset_commutative(t.take(p), t.skip(p));
        assert(t.take(p) + (seq![s.last()] + t.skip(p)) =~= r);
        assert(s =~= d.push(s.last()));
    }
}

proof fn lemma_infinitive_keys(forms: Seq<Form>)
    ensures
        infinitive_keys(forms).no_duplicates(),
        forall|k: TvText|
            #[trigger] infinitive_keys(forms).contains(k) <==> exists|i: int|
                0 <= i < forms.len() && infinitive(#[trigger] forms[i]) && tv_of(forms[i]) == k,
    decreases forms.len(),
{
    if forms.len() > 0 {
        let d = forms.drop_last();
        lemma_infinitive_keys(d);
        let prev = infinitive_keys(d);
        let r = infinitive_keys(forms);
        assert forall|k: TvText| #[trigger] r.contains(k) implies exists|i: int|
            0 <= i < forms.len() && infinitive(#[trigger] forms[i]) && tv_of(forms[i]) == k by {
            let m = choose|m: int| 0 <= m < r.len() && r[m] == k;
            if m < prev.len() {
                assert(prev[m] == k);
                assert(prev.contains(k));
                let i = choose|i: int|
                    0 <= i < d.len() && infinitive(#[trigger] d[i]) && tv_of(d[i]) == k;
                assert(forms[i] == d[i]);
            } else {
                assert(forms[forms.len() - 1] == forms.last());
            }
        }
        assert forall|k: TvText|
            (exists|i: int|
                0 <= i < forms.len() && infinitive(#[trigger] forms[i]) && tv_of(forms[i])
                    == k) implies #[trigger] r.contains(k) by {
            let i = choose|i: int|
                0 <= i < forms.len() && infinitive(#[trigger] forms[i]) && tv_of(forms[i]) == k;
            if i < d.len() {
                assert(d[i] == forms[i]);
                assert(prev.contains(k));
                let m = choose|m: int| 0 <= m < prev.len() && prev[m] == k;
                assert(r[m] == k);
            } else if !prev.contains(k) {
                assert(r[r.len() - 1] == k);
            } else {
                let m = choose|m: int| 0 <= m < prev.len() && prev[m] == k;
                assert(r[m] == k);
            }
        }
    }
}

/// The columns of the infinitive table are the tenses and voices that some
/// infinitive has, each once, in display order (by tense, then voice).
pub proof fn lemma_infinitive_columns(forms: Seq<Form>)
    ensures
        tv_sorted(tv_sort(infinitive_keys(forms))),
        tv_sort(infinitive_keys(forms)).no_duplicates(),
        forall|k: TvText|
            #[trigger] tv_sort(infinitive_keys(forms)).contains(k) <==> exists|i: int|
                0 <= i < forms.len() && infinitive(#[trigger] forms[i]) && tv_of(forms[i]) == k,
{
    broadcast use vstd::seq_lib::group_to_multiset_ensures;

    let ik = infinitive_keys(forms);
    let ks = tv_sort(ik);
    lemma_infinitive_keys(forms);
    lemma_tv_sort(ik);
    ik.lemma_multiset_has_no_duplicates();
    assert forall|x: TvText| ks.to_multiset().contains(x) implies ks.to_multiset().count(x)
        == 1 by {
        assert(ik.to_multiset().contains(x));
    }
    ks.lemma_multiset_has_no_duplicates_conv();
    assert forall|k: TvText| #[trigger] ks.contains(k) <==> ik.contains(k) by {
        if ks.contains(k) {
            assert(ks.to_multiset().contains(k));
        }
        if ik.contains(k) {
            assert(ik.to_multiset().contains(k));
        }
    }
}

/// Every form shown in a verb table belongs there: it is one of the given
/// forms, its mood tag reads the table's mood key, and its tense and voice
/// tags read the table's tense and voice keys wherever the table has them
/// (the infinitive table has none and shows infinitives only); in the
/// tables of a tense, its number tag reads its column's number.
pub proof fn lemma_verb_cells_belong(
    r: Seq<ParadigmTable>,
    lemma: Lemma,
    forms: Seq<Form>,
    dual: bool,
    lang: UiLanguage,
)
    requires
        verb_tables_ok(r, lemma, forms, dual, lang),
    ensures
        forall|q: int, i: int, j: int|
            0 <= q < r.len() && 0 <= i < r[q].cells@.len() && 0 <= j < r[q].cells@[i]@.len() && (
            #[trigger] r[q].cells@[i]@[j]).form is Some ==> {
                let f = r[q].cells@[i]@[j].form.unwrap();
                &&& forms.contains(f)
                &&& f.mood_tag is Some && r[q].mood_key is Some && f.mood_tag.unwrap()@ == r[q].mood_key.unwrap()@
                &&& r[q].tense_key is Some ==> f.tense_tag is Some && f.tense_tag.unwrap()@
                    == r[q].tense_key.unwrap()@
                &&& r[q].voice_key is Some ==> f.voice_tag is Some && f.voice_tag.unwrap()@
                    == r[q].voice_key.unwrap()@
                &&& r[q].tense_key is Some ==> f.number_tag is Some && f.number_tag.unwrap()@
                    == column_number(dual, j)
            },
{
    let kept = kept_keys(forms, tmv_sort(finite_keys(forms)));
    assert forall|q: int, i: int, j: int|
        0 <= q < r.len() && 0 <= i < r[q].cells@.len() && 0 <= j < r[q].cells@[i]@.len() && (
        #[trigger] r[q].cells@[i]@[j]).form is Some implies {
            let f = r[q].cells@[i]@[j].form.unwrap();
            &&& forms.contains(f)
            &&& f.mood_tag is Some && r[q].mood_key is Some && f.mood_tag.unwrap()@ == r[q].mood_key.unwrap()@
            &&& r[q].tense_key is Some ==> f.tense_tag is Some && f.tense_tag.unwrap()@
                == r[q].tense_key.unwrap()@
            &&& r[q].voice_key is Some ==> f.voice_tag is Some && f.voice_tag.unwrap()@
                == r[q].voice_key.unwrap()@
            &&& r[q].tense_key is Some ==> f.number_tag is Some && f.number_tag.unwrap()@
                == column_number(dual, j)
        } by {
        if q < kept.len() {
            let key = kept[q];
            assert(verb_table_ok(r[q], lemma, forms, dual, lang, key));
            let ps = key_persons(forms, key);
            let nums = number_keys(dual);
            lemma_first_verb(forms, key, ps[i], nums[j]);
            assert(nums[j] == column_number(dual, j));
        } else {
            let ks = tv_sort(infinitive_keys(forms));
            assert(infinitive_table_ok(r[q], lemma, forms, lang));
            assert(i == 0);
            lemma_first_infinitive(forms, ks[j]);
        }
    }
}

/// The case of row `r` of a nominal table: nominative, genitive, dative,
/// accusative, vocative.
pub open spec fn row_case(r: int) -> Seq<char> {
    if r == 0 {
        "nom"@
    } else if r == 1 {
        "gen"@
    } else if r == 2 {
        "dat"@
    } else if r == 3 {
        "acc"@
    } else {
        "voc"@
    }
}

/// The number of the `j`-th number column: singular, (dual,) plural.
pub open spec fn column_number(dual: bool, j: int) -> Seq<char> {
    if j == 0 {
        "sg"@
    } else if dual && j == 1 {
        "du"@
    } else {
        "pl"@
    }
}

proof fn lemma_nominal_columns(nums: Seq<Seq<char>>, gens: Seq<Seq<char>>)
    ensures
        nominal_columns(nums, gens).len() == nums.len() * gens.len(),
        forall|k: int|
            0 <= k < nominal_columns(nums, gens).len() ==> #[trigger] nominal_columns(nums, gens)[k] == (
                nums[k / gens.len() as int],
                gens[k % gens.len() as int],
            ),
    decreases nums.len(),
{
    if nums.len() > 0 {
        let d = nums.drop_last();
        let g = gens.len() as int;
        let n = nums.len() as int;
        lemma_nominal_columns(d, gens);
        let prev = nominal_columns(d, gens);
        let cols = nominal_columns(nums, gens);
        assert(prev.len() + g == n * g) by (nonlinear_arith)
            requires
                prev.len() == (n - 1) * g,
        ;
        assert forall|k: int| 0 <= k < cols.len() implies #[trigger] cols[k] == (
            nums[k / g],
            gens[k % g],
        ) by {
            assert(g > 0) by (nonlinear_arith)
                requires
                    0 <= k < n * g,
                    g >= 0,
            ;
            if k < prev.len() {
                assert(cols[k] == prev[k]);
                vstd::arithmetic::div_mod::lemma_fundamental_div_mod(k, g);
                vstd::arithmetic::div_mod::lemma_mod_bound(k, g);
                assert(k / g < n - 1) by (nonlinear_arith)
                    requires
                        k == g * (k / g) + k % g,
                        0 <= k % g,
                        k < (n - 1) * g,
                        g > 0,
                ;
                assert(k / g >= 0) by (nonlinear_arith)
                    requires
                        k == g * (k / g) + k % g,
                        k % g < g,
                        k >= 0,
                        g > 0,
                ;
                assert(d[k / g] == nums[k / g]);
            } else {
                let j = k - prev.len();
                vstd::arithmetic::div_mod::lemma_fundamental_div_mod_converse(k, g, n - 1, j);
                assert(cols[k] == (nums.last(), gens[j]));
            }
        }
    }
}

/// Every form shown in a nominal table belongs there: it is one of the
/// given forms, its case tag reads its row's case, its number tag reads its
/// column's number, and, when the table has more than one gender, its
/// gender tag reads its column's gender.
pub proof fn lemma_nominal_cells_belong(
    t: ParadigmTable,
    lemma: Lemma,
    forms: Seq<Form>,
    dual: bool,
    genders: Seq<Seq<char>>,
    lang: UiLanguage,
)
    requires
        nominal_table_ok(t, lemma, forms, dual, genders, lang),
    ensures
        forall|r: int, k: int|
            0 <= r < t.cells@.len() && 0 <= k < t.cells@[r]@.len() && (#[trigger] t.cells@[r]@[k]).form is Some
                ==> {
                let f = t.cells@[r]@[k].form.unwrap();
                &&& forms.contains(f)
                &&& f.case_tag is Some && f.case_tag.unwrap()@ == row_case(r)
                &&& f.number_tag is Some && f.number_tag.unwrap()@ == column_number(dual, k / genders.len() as int)
                &&& genders.len() > 1 ==> f.gender_tag is Some && f.gender_tag.unwrap()@ == genders[k
                    % genders.len() as int]
            },
{
    lemma_nominal_columns(number_keys(dual), genders);
    let cols = nominal_columns(number_keys(dual), genders);
    assert forall|r: int, k: int|
        0 <= r < t.cells@.len() && 0 <= k < t.cells@[r]@.len() && (#[trigger] t.cells@[r]@[k]).form is Some
            implies {
            let f = t.cells@[r]@[k].form.unwrap();
            &&& forms.contains(f)
            &&& f.case_tag is Some && f.case_tag.unwrap()@ == row_case(r)
            &&& f.number_tag is Some && f.number_tag.unwrap()@ == column_number(dual, k / genders.len() as int)
            &&& genders.len() > 1 ==> f.gender_tag is Some && f.gender_tag.unwrap()@ == genders[k
                % genders.len() as int]
        } by {
        let col = cols[k];
        lemma_first_nominal(forms, case_keys()[r], col.0, col.1, genders.len() == 1);
        assert(case_keys()[r] == row_case(r));
        let g = genders.len() as int;
        let n = number_keys(dual).len() as int;
        let q = k / g;
        assert(g > 0) by (nonlinear_arith)
            requires
                0 <= k < n * g,
                g >= 0,
        ;
        vstd::arithmetic::div_mod::lemma_fundamental_div_mod(k, g);
        vstd::arithmetic::div_mod::lemma_mod_bound(k, g);
        assert(0 <= q < n) by (nonlinear_arith)
            requires
                k == g * q + k % g,
                0 <= k % g < g,
                0 <= k < n * g,
                g > 0,
        ;
        assert(number_keys(dual)[q] == column_number(dual, q));
    }
}

} // verus!

//! Finding lemmas by a typed query: substring tests on lower-cased and
//! accent-free text, and ordering by the accent-free headword.
use vstd::prelude::*;

use crate::catalog::{has_paradigm, Catalog};
use crate::diacritics::{normalize, normalized};
use crate::filter::{ids_contain, strings_contain, texts_contain};
use crate::form::Lemma;
use crate::text::{lowercase_of, str_eq, text_of, text_or_empty, to_lowercase, trim, trim_seq};

verus! {

/// `n` occurs in `h` as a contiguous piece.
pub open spec fn has_sub(h: Seq<char>, n: Seq<char>) -> bool {
    exists|i: int| 0 <= i && i + n.len() <= h.len() && #[trigger] h.subrange(i, i + n.len()) == n
}

/// `str::contains` for a text needle.
pub fn str_contains(h: &str, n: &str) -> (r: bool)
    ensures
        r == has_sub(h@, n@),
{
    let hl = h.unicode_len();
    let nl = n.unicode_len();
    if nl > hl {
        proof {
            if has_sub(h@, n@) {
                let i = choose|i: int| 0 <= i && i + n@.len() <= h@.len() && #[trigger] h@.subrange(i, i + n@.len()) == n@;
            }
        }
        return false;
    }
    let mut i: usize = 0;
    while i <= hl - nl
        invariant
            hl == h@.len(),
            nl == n@.len(),
            nl <= hl,
            i <= hl - nl + 1,
            forall|k: int| 0 <= k < i ==> #[trigger] h@.subrange(k, k + nl) != n@,
        decreases hl - i,
    {
        let mut j: usize = 0;
        while j < nl && h.get_char(i + j) == n.get_char(j)
            invariant
                hl == h@.len(),
                nl == n@.len(),
                i + nl <= hl,
                j <= nl,
                forall|m: int| 0 <= m < j ==> h@[i + m] == n@[m],
            decreases nl - j,
        {
            j = j + 1;
        }
        let same = j == nl;
        if !same {
            assert(h@.subrange(i as int, i + nl)[j as int] != n@[j as int]);
        }
        if same {
            assert(h@.subrange(i as int, i + nl) =~= n@);
            return true;
        }
        i = i + 1;
    }
    proof {
        if has_sub(h@, n@) {
            let k = choose|k: int| 0 <= k && k + n@.len() <= h@.len() && #[trigger] h@.subrange(k, k + n@.len()) == n@;
            assert(h@.subrange(k, k + nl) != n@);
        }
    }
    false
}

/// Lexicographic order of texts by character, a prefix first.
pub open spec fn lex_le(a: Seq<char>, b: Seq<char>) -> bool
    decreases a.len(),
{
    if a.len() == 0 {
        true
    } else if b.len() == 0 {
        false
    } else if a[0] != b[0] {
        a[0] < b[0]
    } else {
        lex_le(a.drop_first(), b.drop_first())
    }
}

/// Whether `a` sorts no later than `b`.
pub fn text_le(a: &str, b: &str) -> (r: bool)
    ensures
        r == lex_le(a@, b@),
{
    let al = a.unicode_len();
    let bl = b.unicode_len();
    let mut i: usize = 0;
    assert(a@.skip(0) =~= a@);
    assert(b@.skip(0) =~= b@);
    while i < al && i < bl && a.get_char(i) == b.get_char(i)
        invariant
            al == a@.len(),
            bl == b@.len(),
            i <= al,
            i <= bl,
            lex_le(a@, b@) == lex_le(a@.skip(i as int), b@.skip(i as int)),
        decreases al - i,
    {
        assert(a@.skip(i as int).drop_first() =~= a@.skip(i + 1));
        assert(b@.skip(i as int).drop_first() =~= b@.skip(i + 1));
        assert(a@.skip(i as int)[0] == a@[i as int]);
        assert(b@.skip(i as int)[0] == b@[i as int]);
        i = i + 1;
    }
    if i == al {
        true
    } else if i == bl {
        false
    } else {
        assert(a@.skip(i as int)[0] == a@[i as int]);
        assert(b@.skip(i as int)[0] == b@[i as int]);
        a.get_char(i) < b.get_char(i)
    }
}

// ── Lemmas in order of their headword ──────────────────────────────────────

/// The headword a lemma is sorted by: without accents or breathings.
pub open spec fn headword_key(l: Lemma) -> Seq<char> {
    normalized(l.greek@, true)
}

/// `x` inserted into `s` after every lemma whose headword does not sort
/// after its own.
pub open spec fn headword_insert(s: Seq<Lemma>, x: Lemma) -> Seq<Lemma>
    decreases s.len(),
{
    if s.len() == 0 {
        seq![x]
    } else if !lex_le(headword_key(s.last()), headword_key(x)) {
        headword_insert(s.drop_last(), x).push(s.last())
    } else {
        s.push(x)
    }
}

/// Stable sort of lemmas by headword.
pub open spec fn headword_sort(s: Seq<Lemma>) -> Seq<Lemma>
    decreases s.len(),
{
    if s.len() == 0 {
        s
    } else {
        headword_insert(headword_sort(s.drop_last()), s.last())
    }
}

pub open spec fn pair_lemmas(v: Seq<(String, Lemma)>) -> Seq<Lemma> {
    Seq::new(v.len(), |i: int| v[i].1)
}

fn sort_by_headword(lemmas: Vec<Lemma>) -> (r: Vec<Lemma>)
    ensures
        r@ == headword_sort(lemmas@),
{
    let ghost ls = lemmas@;
    let ghost n = lemmas@.len();
    let mut rest = lemmas;
    let mut out: Vec<(String, Lemma)> = Vec::new();
    assert(ls.take(0) =~= Seq::<Lemma>::empty());
    assert(pair_lemmas(out@) =~= Seq::<Lemma>::empty());
    while rest.len() > 0
        invariant
            n == ls.len(),
            rest@.len() <= n,
            rest@ == ls.skip(n - rest@.len()),
            pair_lemmas(out@) == headword_sort(ls.take(n - rest@.len())),
            forall|k: int| 0 <= k < out@.len() ==> (#[trigger] out@[k]).0@ == headword_key(out@[k].1),
        decreases rest@.len(),
    {
        let ghost i = n - rest@.len();
        let ghost before = rest@;
        let x = rest.remove(0);
        assert(x == ls[i]) by {
            assert(ls.skip(i)[0] == ls[i]);
        }
        assert(rest@ =~= ls.skip(i + 1)) by {
            assert forall|k: int| 0 <= k < rest@.len() implies rest@[k] == ls.skip(i + 1)[k] by {
                assert(rest@[k] == before[k + 1]);
            }
        }
        assert(ls.take(i + 1).drop_last() =~= ls.take(i));
        assert(ls.take(i + 1).last() == x);
        let key = normalize(x.greek.as_str(), true);
        let ghost s = pair_lemmas(out@);
        let mut p = out.len();
        assert(s.take(p as int) =~= s);
        assert(s.skip(p as int) =~= Seq::<Lemma>::empty());
        assert(headword_insert(s, x) =~= headword_insert(s.take(p as int), x) + s.skip(p as int));
        while p > 0 && !text_le(out[p - 1].0.as_str(), key.as_str())
            invariant
                s == pair_lemmas(out@),
                key@ == headword_key(x),
                p <= out@.len(),
                forall|k: int| 0 <= k < out@.len() ==> (#[trigger] out@[k]).0@ == headword_key(out@[k].1),
                headword_insert(s, x) == headword_insert(s.take(p as int), x) + s.skip(p as int),
            decreases p,
        {
            assert(out@[p - 1].0@ == headword_key(s[p - 1]));
            assert(s.take(p as int).drop_last() =~= s.take(p - 1));
            assert(s.take(p as int).last() == s[p - 1]);
            assert(s.skip(p - 1) =~= seq![s[p - 1]] + s.skip(p as int));
            assert(headword_insert(s.take(p as int), x) == headword_insert(s.take(p - 1), x).push(
                s[p - 1],
            ));
            assert(headword_insert(s, x) =~= headword_insert(s.take(p - 1), x) + s.skip(p - 1));
            p = p - 1;
        }
        if p > 0 {
            assert(s.take(p as int).last() == s[p - 1]);
            assert(out@[p - 1].0@ == headword_key(s[p - 1]));
        }
        assert(headword_insert(s.take(p as int), x) =~= s.take(p as int).push(x));
        let ghost before_out = out@;
        out.insert(p, (key, x));
        assert(pair_lemmas(out@) =~= s.take(p as int).push(x) + s.skip(p as int));
        assert forall|k: int| 0 <= k < out@.len() implies (#[trigger] out@[k]).0@ == headword_key(
            out@[k].1,
        ) by {
            if k < p {
                assert(out@[k] == before_out[k]);
            } else if k > p {
                assert(out@[k] == before_out[k - 1]);
            }
        }
    }
    assert(ls.take(n as int) =~= ls);
    let mut r: Vec<Lemma> = Vec::new();
    let ghost ps = out@;
    while out.len() > 0
        invariant
            ps.len() == out@.len() + r@.len(),
            r@ == pair_lemmas(ps).take(r@.len() as int),
            out@ == ps.skip(r@.len() as int),
        decreases out@.len(),
    {
        let ghost before = out@;
        let (_, l) = out.remove(0);
        assert(l == ps[r@.len() as int].1) by {
            assert(ps.skip(r@.len() as int)[0] == ps[r@.len() as int]);
        }
        let ghost k0 = r@.len() as int;
        r.push(l);
        assert(r@ =~= pair_lemmas(ps).take(k0 + 1));
        assert(out@ =~= ps.skip(k0 + 1)) by {
            assert forall|k: int| 0 <= k < out@.len() implies out@[k] == ps.skip(k0 + 1)[k] by {
                assert(out@[k] == before[k + 1]);
            }
        }
    }
    assert(pair_lemmas(ps).take(r@.len() as int) =~= pair_lemmas(ps));
    r
}

// ── The searches ───────────────────────────────────────────────────────────

/// The lemmas that satisfy `pred`, in order.
pub open spec fn lemmas_where(ls: Seq<Lemma>, pred: spec_fn(Lemma) -> bool) -> Seq<Lemma>
    decreases ls.len(),
{
    if ls.len() == 0 {
        Seq::empty()
    } else {
        let prev = lemmas_where(ls.drop_last(), pred);
        if pred(ls.last()) {
            prev.push(ls.last())
        } else {
            prev
        }
    }
}

/// The lower-case text of an optional string, empty when absent.
pub open spec fn lower_or_empty(o: Option<String>) -> Seq<char> {
    lowercase_of(text_or_empty(o))
}

/// A lemma found by the word picker of the building drill: the lower-cased
/// query is empty or occurs in the headword, the lower-cased Russian or the
/// lower-cased English translation.
pub open spec fn picker_query_match(l: Lemma, q: Seq<char>) -> bool {
    q.len() == 0 || has_sub(l.greek@, q) || has_sub(lower_or_empty(l.russian), q) || has_sub(
        lower_or_empty(l.english),
        q,
    )
}

/// The first `limit` lemmas for which `picker_query_match` holds.
pub open spec fn first_matches(ls: Seq<Lemma>, q: Seq<char>, limit: nat) -> Seq<Lemma>
    decreases ls.len(),
{
    if ls.len() == 0 || limit == 0 {
        Seq::empty()
    } else if picker_query_match(ls[0], q) {
        seq![ls[0]] + first_matches(ls.drop_first(), q, (limit - 1) as nat)
    } else {
        first_matches(ls.drop_first(), q, limit)
    }
}

/// How many lemmas the word picker of the building drill lists.
pub const BUILD_PICKER_LIMIT: usize = 30;

fn picker_match_exec(l: &Lemma, q: &str) -> (r: bool)
    ensures
        r == picker_query_match(*l, q@),
{
    if q.unicode_len() == 0 || str_contains(l.greek.as_str(), q) {
        return true;
    }
    let ru = to_lowercase(text_of(&l.russian).as_str());
    if str_contains(ru.as_str(), q) {
        return true;
    }
    let en = to_lowercase(text_of(&l.english).as_str());
    str_contains(en.as_str(), q)
}

/// The lemmas the word picker of the building drill lists for a query: the
/// first thirty whose headword or lower-cased translation contains the
/// lower-cased query.
pub fn build_search(lemmas: &[Lemma], query: &str) -> (r: Vec<Lemma>)
    ensures
        r@ == first_matches(lemmas@, lowercase_of(query@), BUILD_PICKER_LIMIT as nat),
{
    let q = to_lowercase(query);
    let mut r: Vec<Lemma> = Vec::new();
    let mut i: usize = 0;
    assert(lemmas@.skip(0) =~= lemmas@);
    assert(r@ + first_matches(lemmas@.skip(0), q@, BUILD_PICKER_LIMIT as nat) =~= first_matches(
        lemmas@,
        q@,
        BUILD_PICKER_LIMIT as nat,
    ));
    while i < lemmas.len() && r.len() < BUILD_PICKER_LIMIT
        invariant
            i <= lemmas@.len(),
            r@.len() <= BUILD_PICKER_LIMIT,
            q@ == lowercase_of(query@),
            r@ + first_matches(lemmas@.skip(i as int), q@, (BUILD_PICKER_LIMIT - r@.len()) as nat)
                == first_matches(lemmas@, q@, BUILD_PICKER_LIMIT as nat),
        decreases lemmas@.len() - i,
    {
        let ghost rest = lemmas@.skip(i as int);
        let ghost lim = (BUILD_PICKER_LIMIT - r@.len()) as nat;
        assert(rest[0] == lemmas@[i as int]);
        assert(rest.drop_first() =~= lemmas@.skip(i + 1));
        if picker_match_exec(&lemmas[i], q.as_str()) {
            let ghost before = r@;
            r.push(lemmas[i].duplicate());
            assert(before + first_matches(rest, q@, lim) =~= r@ + first_matches(
                lemmas@.skip(i + 1),
                q@,
                (BUILD_PICKER_LIMIT - r@.len()) as nat,
            ));
        }
        i = i + 1;
    }
    proof {
        let lim = (BUILD_PICKER_LIMIT - r@.len()) as nat;
        assert(first_matches(lemmas@.skip(i as int), q@, lim) =~= Seq::<Lemma>::empty());
        assert(r@ + Seq::<Lemma>::empty() =~= r@);
    }
    r
}

/// A lemma shown by the lemma filter of the side panel: it has a paradigm,
/// its part of speech is selected (when any is), and the trimmed query is
/// empty or occurs in its accent-free lower-cased headword or in its
/// lower-cased Russian translation.
pub open spec fn panel_match(
    forms: Seq<crate::form::Form>,
    l: Lemma,
    pos: Seq<Seq<char>>,
    q: Seq<char>,
) -> bool {
    let qt = trim_seq(q);
    &&& has_paradigm(forms, l.id)
    &&& (pos.len() == 0 || pos.contains(text_or_empty(l.part_of_speech)))
    &&& (qt.len() == 0 || has_sub(
        lowercase_of(normalized(l.greek@, true)),
        lowercase_of(normalized(qt, true)),
    ) || (l.russian is Some && has_sub(lowercase_of(text_or_empty(l.russian)), lowercase_of(qt))))
}

/// A lemma shown by the paradigm browser: it has a paradigm, its part of
/// speech is the chosen one (unless `all` is chosen), and the query is empty
/// or occurs, accent-free and lower-cased, in its accent-free lower-cased
/// headword, or, lower-cased, in its lower-cased Russian or English
/// translation.
pub open spec fn browser_match(forms: Seq<crate::form::Form>, l: Lemma, pos: Seq<char>, q: Seq<char>) -> bool {
    &&& has_paradigm(forms, l.id)
    &&& (pos == "all"@ || (l.part_of_speech is Some && text_or_empty(l.part_of_speech) == pos))
    &&& (q.len() == 0 || has_sub(
        lowercase_of(normalized(l.greek@, true)),
        lowercase_of(normalized(q, true)),
    ) || (l.russian is Some && has_sub(lowercase_of(text_or_empty(l.russian)), lowercase_of(q)))
        || (l.english is Some && has_sub(lowercase_of(text_or_empty(l.english)), lowercase_of(q))))
}

/// A lemma offered for the learning list: it has a paradigm, is not on the
/// list yet, and the trimmed query is empty, or occurs accent-free and
/// lower-cased in its accent-free lower-cased headword, or the lower-cased
/// query occurs in its lower-cased Russian or English translation (a
/// missing translation read as empty).
pub open spec fn learning_match(forms: Seq<crate::form::Form>, l: Lemma, listed: Seq<i64>, q: Seq<char>) -> bool {
    let qt = trim_seq(q);
    &&& has_paradigm(forms, l.id)
    &&& !listed.contains(l.id)
    &&& (qt.len() == 0 || has_sub(
        lowercase_of(normalized(l.greek@, true)),
        lowercase_of(normalized(qt, true)),
    ) || has_sub(lowercase_of(text_or_empty(l.russian)), lowercase_of(q)) || has_sub(
        lowercase_of(text_or_empty(l.english)),
        lowercase_of(q),
    ))
}

fn text_contains(o: &Option<String>, needle: &str) -> (r: bool)
    ensures
        r == has_sub(lowercase_of(text_or_empty(*o)), needle@),
{
    let t = text_of(o);
    let low = to_lowercase(t.as_str());
    str_contains(low.as_str(), needle)
}

fn headword_contains(l: &Lemma, needle: &str) -> (r: bool)
    ensures
        r == has_sub(lowercase_of(normalized(l.greek@, true)), needle@),
{
    let h = to_lowercase(normalize(l.greek.as_str(), true).as_str());
    str_contains(h.as_str(), needle)
}

fn translation_contains(o: &Option<String>, needle: &str) -> (r: bool)
    ensures
        r == (o is Some && has_sub(lowercase_of(text_or_empty(*o)), needle@)),
{
    match o {
        Some(t) => {
            let low = to_lowercase(t.as_str());
            str_contains(low.as_str(), needle)
        },
        None => false,
    }
}

impl Catalog {
    /// The lemmas the lemma filter of the side panel lists for the selected
    /// parts of speech and a query, by headword.
    pub fn panel_lemmas(&self, selected_pos: &Vec<String>, query: &str) -> (r: Vec<Lemma>)
        ensures
            r@ == headword_sort(
                lemmas_where(
                    self.lemmas@,
                    |l: Lemma|
                        panel_match(
                            self.forms@,
                            l,
                            crate::text::string_views(selected_pos@),
                            query@,
                        ),
                ),
            ),
    {
        let ghost pv = crate::text::string_views(selected_pos@);
        let ghost pred = |l: Lemma| panel_match(self.forms@, l, pv, query@);
        let qt = trim(query);
        let q_norm = to_lowercase(normalize(qt, true).as_str());
        let q_low = to_lowercase(qt);
        let mut found: Vec<Lemma> = Vec::new();
        let mut i: usize = 0;
        assert(self.lemmas@.take(0) =~= Seq::<Lemma>::empty());
        while i < self.lemmas.len()
            invariant
                i <= self.lemmas@.len(),
                pv == crate::text::string_views(selected_pos@),
                pred == (|l: Lemma| panel_match(self.forms@, l, pv, query@)),
                qt@ == trim_seq(query@),
                q_norm@ == lowercase_of(normalized(qt@, true)),
                q_low@ == lowercase_of(qt@),
                found@ == lemmas_where(self.lemmas@.take(i as int), pred),
            decreases self.lemmas@.len() - i,
        {
            let l = &self.lemmas[i];
            assert(self.lemmas@.take(i + 1).drop_last() =~= self.lemmas@.take(i as int));
            assert(self.lemmas@.take(i + 1).last() == *l);
            let pos_ok = if selected_pos.len() == 0 {
                true
            } else {
                let lp = text_of(&l.part_of_speech);
                let c = strings_contain(selected_pos, lp.as_str());
                proof {
                    if texts_contain(selected_pos@, lp@) {
                        let j = choose|j: int| 0 <= j < selected_pos@.len() && (#[trigger] selected_pos@[j])@ == lp@;
                        assert(pv[j] == lp@);
                    }
                    if pv.contains(lp@) {
                        let j = choose|j: int| 0 <= j < pv.len() && pv[j] == lp@;
                        assert(selected_pos@[j]@ == lp@);
                    }
                }
                c
            };
            let ok = self.lemma_has_paradigm(l.id) && pos_ok && (qt.unicode_len() == 0
                || headword_contains(l, q_norm.as_str()) || translation_contains(
                &l.russian,
                q_low.as_str(),
            ));
            assert(ok == pred(*l));
            if ok {
                found.push(l.duplicate());
            }
            i = i + 1;
        }
        assert(self.lemmas@.take(self.lemmas@.len() as int) =~= self.lemmas@);
        sort_by_headword(found)
    }

    /// The lemmas that can be added to the learning list, whose lemma ids
    /// are `listed`, for a search query, by headword.
    pub fn learning_lemmas(&self, listed: &Vec<i64>, query: &str) -> (r: Vec<Lemma>)
        ensures
            r@ == headword_sort(
                lemmas_where(self.lemmas@, |l: Lemma| learning_match(self.forms@, l, listed@, query@)),
            ),
    {
        let ghost pred = |l: Lemma| learning_match(self.forms@, l, listed@, query@);
        let qt = trim(query);
        let q_norm = to_lowercase(normalize(qt, true).as_str());
        let q_low = to_lowercase(query);
        let mut found: Vec<Lemma> = Vec::new();
        let mut i: usize = 0;
        assert(self.lemmas@.take(0) =~= Seq::<Lemma>::empty());
        while i < self.lemmas.len()
            invariant
                i <= self.lemmas@.len(),
                pred == (|l: Lemma| learning_match(self.forms@, l, listed@, query@)),
                qt@ == trim_seq(query@),
                q_norm@ == lowercase_of(normalized(qt@, true)),
                q_low@ == lowercase_of(query@),
                found@ == lemmas_where(self.lemmas@.take(i as int), pred),
            decreases self.lemmas@.len() - i,
        {
            let l = &self.lemmas[i];
            assert(self.lemmas@.take(i + 1).drop_last() =~= self.lemmas@.take(i as int));
            assert(self.lemmas@.take(i + 1).last() == *l);
            let ok = self.lemma_has_paradigm(l.id) && !ids_contain(listed, l.id) && (qt.unicode_len() == 0
                || headword_contains(l, q_norm.as_str()) || text_contains(&l.russian, q_low.as_str())
                || text_contains(&l.english, q_low.as_str()));
            assert(ok == pred(*l));
            if ok {
                found.push(l.duplicate());
            }
            i = i + 1;
        }
        assert(self.lemmas@.take(self.lemmas@.len() as int) =~= self.lemmas@);
        sort_by_headword(found)
    }

    /// The lemmas the paradigm browser lists for a part of speech (or
    /// `all`) and a query, by headword.
    pub fn browser_lemmas(&self, pos: &str, query: &str) -> (r: Vec<Lemma>)
        ensures
            r@ == headword_sort(
                lemmas_where(self.lemmas@, |l: Lemma| browser_match(self.forms@, l, pos@, query@)),
            ),
    {
        let ghost pred = |l: Lemma| browser_match(self.forms@, l, pos@, query@);
        let all = str_eq(pos, "all");
        let q_norm = to_lowercase(normalize(query, true).as_str());
        let q_low = to_lowercase(query);
        let mut found: Vec<Lemma> = Vec::new();
        let mut i: usize = 0;
        assert(self.lemmas@.take(0) =~= Seq::<Lemma>::empty());
        while i < self.lemmas.len()
            invariant
                i <= self.lemmas@.len(),
                pred == (|l: Lemma| browser_match(self.forms@, l, pos@, query@)),
                all == (pos@ == "all"@),
                q_norm@ == lowercase_of(normalized(query@, true)),
                q_low@ == lowercase_of(query@),
                found@ == lemmas_where(self.lemmas@.take(i as int), pred),
            decreases self.lemmas@.len() - i,
        {
            let l = &self.lemmas[i];
            assert(self.lemmas@.take(i + 1).drop_last() =~= self.lemmas@.take(i as int));
            assert(self.lemmas@.take(i + 1).last() == *l);
            let pos_ok = all || match &l.part_of_speech {
                Some(p) => str_eq(p.as_str(), pos),
                None => false,
            };
            let ok = self.lemma_has_paradigm(l.id) && pos_ok && (query.unicode_len() == 0
                || headword_contains(l, q_norm.as_str()) || translation_contains(
                &l.russian,
                q_low.as_str(),
            ) || translation_contains(&l.english, q_low.as_str()));
            assert(ok == pred(*l));
            if ok {
                found.push(l.duplicate());
            }
            i = i + 1;
        }
        assert(self.lemmas@.take(self.lemmas@.len() as int) =~= self.lemmas@);
        sort_by_headword(found)
    }
}

// ── Properties of the searches ─────────────────────────────────────────────

/// Lexicographic order is total.
pub proof fn lemma_lex_total(a: Seq<char>, b: Seq<char>)
    ensures
        lex_le(a, b) || lex_le(b, a),
    decreases a.len(),
{
    if a.len() > 0 && b.len() > 0 && a[0] == b[0] {
        lemma_lex_total(a.drop_first(), b.drop_first());
    }
}

/// Lexicographic order is transitive.
pub proof fn lemma_lex_trans(a: Seq<char>, b: Seq<char>, c: Seq<char>)
    requires
        lex_le(a, b),
        lex_le(b, c),
    ensures
        lex_le(a, c),
    decreases a.len(),
{
    if a.len() > 0 && b.len() > 0 && c.len() > 0 && a[0] == b[0] && b[0] == c[0] {
        lemma_lex_trans(a.drop_first(), b.drop_first(), c.drop_first());
    }
}

/// Lemmas in headword order.
pub open spec fn headword_sorted(s: Seq<Lemma>) -> bool {
    forall|i: int, j: int|
        0 <= i < j < s.len() ==> lex_le(headword_key(#[trigger] s[i]), headword_key(#[trigger] s[j]))
}

proof fn lemma_headword_insert(s: Seq<Lemma>, x: Lemma) -> (p: int)
    requires
        headword_sorted(s),
    ensures
        0 <= p <= s.len(),
        headword_insert(s, x) == s.take(p) + seq![x] + s.skip(p),
        headword_sorted(headword_insert(s, x)),
    decreases s.len(),
{
    let r = headword_insert(s, x);
    if s.len() == 0 {
        assert(r =~= s.take(0) + seq![x] + s.skip(0));
        0
    } else if !lex_le(headword_key(s.last()), headword_key(x)) {
        let d = s.drop_last();
        let q = lemma_headword_insert(d, x);
        let m = headword_insert(d, x);
        lemma_lex_total(headword_key(s.last()), headword_key(x));
        assert(r =~= s.take(q) + seq![x] + s.skip(q)) by {
            assert(s.take(q) =~= d.take(q));
            assert(s.skip(q) =~= d.skip(q).push(s.last()));
        }
        assert forall|i: int, j: int| 0 <= i < j < r.len() implies lex_le(
            headword_key(#[trigger] r[i]),
            headword_key(#[trigger] r[j]),
        ) by {
            if j == r.len() - 1 {
                if i == q {
                    assert(r[i] == x);
                } else if i < q {
                    assert(r[i] == s[i]);
                    assert(lex_le(headword_key(s[i]), headword_key(s[s.len() - 1])));
                } else {
                    assert(r[i] == s[i - 1]);
                    assert(lex_le(headword_key(s[i - 1]), headword_key(s[s.len() - 1])));
                }
            } else {
                assert(r[i] == m[i] && r[j] == m[j]);
            }
        }
        q
    } else {
        assert(r =~= s.take(s.len() as int) + seq![x] + s.skip(s.len() as int));
        assert forall|i: int, j: int| 0 <= i < j < r.len() implies lex_le(
            headword_key(#[trigger] r[i]),
            headword_key(#[trigger] r[j]),
        ) by {
            if j == s.len() {
                assert(r[i] == s[i]);
                if i < s.len() - 1 {
                    assert(lex_le(headword_key(s[i]), headword_key(s[s.len() - 1])));
                    lemma_lex_trans(headword_key(s[i]), headword_key(s[s.len() - 1]), headword_key(x));
                }
            } else {
                assert(r[i] == s[i] && r[j] == s[j]);
            }
        }
        s.len() as int
    }
}

/// Sorting by headword puts the lemmas in headword order and keeps exactly
/// the same lemmas, each as often as before.
pub proof fn lemma_headword_sort(s: Seq<Lemma>)
    ensures
        headword_sorted(headword_sort(s)),
        headword_sort(s).to_multiset() == s.to_multiset(),
    decreases s.len(),
{
    broadcast use vstd::seq_lib::group_to_multiset_ensures;

    if s.len() > 0 {
        let d = s.drop_last();
        lemma_headword_sort(d);
        let t = headword_sort(d);
        let p = lemma_headword_insert(t, s.last());
        let r = headword_sort(s);
        assert(r =~= t.take(p) + seq![s.last()] + t.skip(p));
        assert(t =~= t.take(p) + t.skip(p));
        vstd::seq_lib::lemma_multiset_commutative(t.take(p), seq![s.last()] + t.skip(p));
        vstd::seq_lib::lemma_multiset_commutative(seq![s.last()], t.skip(p));
        vstd::seq_lib::lemma_multiset_commutative(t.take(p), t.skip(p));
        assert(t.take(p) + (seq![s.last()] + t.skip(p)) =~= r);
        assert(s =~= d.push(s.last()));
    }
}

/// Every lemma kept by a filter satisfies it and is one of the lemmas.
pub proof fn lemma_lemmas_where(ls: Seq<Lemma>, pred: spec_fn(Lemma) -> bool)
    ensures
        forall|k: int|
            0 <= k < lemmas_where(ls, pred).len() ==> pred(#[trigger] lemmas_where(ls, pred)[k])
                && ls.contains(lemmas_where(ls, pred)[k]),
    decreases ls.len(),
{
    if ls.len() > 0 {
        let d = ls.drop_last();
        lemma_lemmas_where(d, pred);
        let r = lemmas_where(ls, pred);
        let prev = lemmas_where(d, pred);
        assert forall|k: int| 0 <= k < r.len() implies pred(#[trigger] r[k]) && ls.contains(r[k]) by {
            if k < prev.len() {
                assert(r[k] == prev[k]);
                let m = choose|m: int| 0 <= m < d.len() && d[m] == prev[k];
                assert(ls[m] == r[k]);
            } else {
                assert(ls[ls.len() - 1] == r[k]);
            }
        }
    }
}

/// The word picker of the building drill lists at most `limit` lemmas, each
/// one of the lemmas and matching the query.
pub proof fn lemma_first_matches(ls: Seq<Lemma>, q: Seq<char>, limit: nat)
    ensures
        first_matches(ls, q, limit).len() <= limit,
        forall|k: int|
            0 <= k < first_matches(ls, q, limit).len() ==> picker_query_match(
                #[trigger] first_matches(ls, q, limit)[k],
                q,
            ) && ls.contains(first_matches(ls, q, limit)[k]),
    decreases ls.len(),
{
    if ls.len() > 0 && limit > 0 {
        let rest = ls.drop_first();
        let r = first_matches(ls, q, limit);
        if picker_query_match(ls[0], q) {
            lemma_first_matches(rest, q, (limit - 1) as nat);
            let t = first_matches(rest, q, (limit - 1) as nat);
            assert forall|k: int| 0 <= k < r.len() implies picker_query_match(#[trigger] r[k], q)
                && ls.contains(r[k]) by {
                if k == 0 {
                    assert(ls[0] == r[0]);
                } else {
                    assert(r[k] == t[k - 1]);
                    let m = choose|m: int| 0 <= m < rest.len() && rest[m] == t[k - 1];
                    assert(ls[m + 1] == r[k]);
                }
            }
        } else {
            lemma_first_matches(rest, q, limit);
            assert forall|k: int| 0 <= k < r.len() implies picker_query_match(#[trigger] r[k], q)
                && ls.contains(r[k]) by {
                let m = choose|m: int| 0 <= m < rest.len() && rest[m] == r[k];
                assert(ls[m + 1] == r[k]);
            }
        }
    }
}

} // verus!

//! Comparison of Greek answers: Unicode normalisation, optional stripping of
//! diacritics, an optional leading article, character diffs and edit
//! distance.
use unicode_normalization::UnicodeNormalization;
use vstd::prelude::*;

use crate::text::{
    chars_of, is_white_space, is_whitespace, lowercase_of, str_eq, string_from_chars, to_lowercase,
    trim, trim_seq, trim_start, trim_start_seq,
};

verus! {

// ── Outside normalisation ──────────────────────────────────────────────────

/// Canonical decomposition (Unicode NFD) of a character sequence, as the
/// `unicode-normalization` crate computes it.
pub uninterp spec fn nfd_of(s: Seq<char>) -> Seq<char>;

/// Canonical composition (Unicode NFC) of a character sequence, as the
/// `unicode-normalization` crate computes it.
pub uninterp spec fn nfc_of(s: Seq<char>) -> Seq<char>;

/// `UnicodeNormalization::nfd` on a `&str`, collected into a `String`: the
/// result is the NFD form of `s`, a function of `s` alone. The decomposition
/// tables themselves are not restated.
#[verifier::external_body]
fn nfd_string(s: &str) -> (r: String)
    ensures
        r@ == nfd_of(s@),
{
    s.nfd().collect()
}

/// `UnicodeNormalization::nfc` on a `&str`, collected into a `String`: the
/// result is the NFC form of `s`, a function of `s` alone. The composition
/// tables themselves are not restated.
#[verifier::external_body]
fn nfc_string(s: &str) -> (r: String)
    ensures
        r@ == nfc_of(s@),
{
    s.nfc().collect()
}

// ── Mark classes ───────────────────────────────────────────────────────────

/// Accent marks: combining grave, acute and perispomeni (circumflex).
pub open spec fn accent_mark(c: char) -> bool {
    c == '\u{300}' || c == '\u{301}' || c == '\u{342}'
}

/// Vowel-length marks: combining macron and breve.
pub open spec fn length_mark(c: char) -> bool {
    c == '\u{304}' || c == '\u{306}'
}

/// The Combining Diacritical Marks blocks (basic and supplement).
pub open spec fn combining_mark(c: char) -> bool {
    ('\u{300}' <= c && c <= '\u{36f}') || ('\u{1dc0}' <= c && c <= '\u{1dff}')
}

pub fn is_accent_mark(c: char) -> (r: bool)
    ensures
        r == accent_mark(c),
{
    c == '\u{300}' || c == '\u{301}' || c == '\u{342}'
}

pub fn is_length_mark(c: char) -> (r: bool)
    ensures
        r == length_mark(c),
{
    c == '\u{304}' || c == '\u{306}'
}

pub fn is_combining(c: char) -> (r: bool)
    ensures
        r == combining_mark(c),
{
    ('\u{300}' <= c && c <= '\u{36f}') || ('\u{1dc0}' <= c && c <= '\u{1dff}')
}

// ── Filters ────────────────────────────────────────────────────────────────

/// `s` without vowel-length marks.
pub open spec fn drop_length_marks(s: Seq<char>) -> Seq<char>
    decreases s.len(),
{
    if s.len() == 0 {
        s
    } else if length_mark(s.last()) {
        drop_length_marks(s.drop_last())
    } else {
        drop_length_marks(s.drop_last()).push(s.last())
    }
}

/// `s` without any combining mark.
pub open spec fn drop_combining_marks(s: Seq<char>) -> Seq<char>
    decreases s.len(),
{
    if s.len() == 0 {
        s
    } else if combining_mark(s.last()) {
        drop_combining_marks(s.drop_last())
    } else {
        drop_combining_marks(s.drop_last()).push(s.last())
    }
}

/// `s` without vowel-length marks and accent marks.
pub open spec fn drop_accents_and_length(s: Seq<char>) -> Seq<char>
    decreases s.len(),
{
    if s.len() == 0 {
        s
    } else if length_mark(s.last()) || accent_mark(s.last()) {
        drop_accents_and_length(s.drop_last())
    } else {
        drop_accents_and_length(s.drop_last()).push(s.last())
    }
}

/// The characters of a decomposed text without vowel-length marks.
pub fn remove_length_marks(v: &Vec<char>) -> (r: Vec<char>)
    ensures
        r@ == drop_length_marks(v@),
{
    let mut r: Vec<char> = Vec::new();
    let mut i: usize = 0;
    assert(v@.take(0) =~= Seq::<char>::empty());
    while i < v.len()
        invariant
            i <= v.len(),
            r@ == drop_length_marks(v@.take(i as int)),
        decreases v.len() - i,
    {
        let c = v[i];
        assert(v@.take(i + 1).drop_last() =~= v@.take(i as int));
        if !is_length_mark(c) {
            r.push(c);
        }
        i = i + 1;
    }
    assert(v@.take(v.len() as int) =~= v@);
    r
}

/// The characters of a decomposed text without any combining mark.
pub fn remove_combining_marks(v: &Vec<char>) -> (r: Vec<char>)
    ensures
        r@ == drop_combining_marks(v@),
{
    let mut r: Vec<char> = Vec::new();
    let mut i: usize = 0;
    assert(v@.take(0) =~= Seq::<char>::empty());
    while i < v.len()
        invariant
            i <= v.len(),
            r@ == drop_combining_marks(v@.take(i as int)),
        decreases v.len() - i,
    {
        let c = v[i];
        assert(v@.take(i + 1).drop_last() =~= v@.take(i as int));
        if !is_combining(c) {
            r.push(c);
        }
        i = i + 1;
    }
    assert(v@.take(v.len() as int) =~= v@);
    r
}

/// The characters of a decomposed text without accent and length marks.
pub fn remove_accents_and_length(v: &Vec<char>) -> (r: Vec<char>)
    ensures
        r@ == drop_accents_and_length(v@),
{
    let mut r: Vec<char> = Vec::new();
    let mut i: usize = 0;
    assert(v@.take(0) =~= Seq::<char>::empty());
    while i < v.len()
        invariant
            i <= v.len(),
            r@ == drop_accents_and_length(v@.take(i as int)),
        decreases v.len() - i,
    {
        let c = v[i];
        assert(v@.take(i + 1).drop_last() =~= v@.take(i as int));
        if !is_length_mark(c) && !is_accent_mark(c) {
            r.push(c);
        }
        i = i + 1;
    }
    assert(v@.take(v.len() as int) =~= v@);
    r
}

// ── Normalisation ──────────────────────────────────────────────────────────

/// The normal form used for comparing Greek text: NFD, vowel-length marks
/// removed, all other combining marks removed too when `strip`, then NFC.
pub open spec fn normalized(s: Seq<char>, strip: bool) -> Seq<char> {
    let kept = drop_length_marks(nfd_of(s));
    if strip {
        nfc_of(drop_combining_marks(kept))
    } else {
        nfc_of(kept)
    }
}

/// Normalise a Greek string for comparison. Vowel-length marks (macron,
/// breve) are always removed; with `strip`, every other combining mark
/// (accents, breathings, iota subscript, diaeresis) is removed as well.
pub fn normalize(s: &str, strip: bool) -> (r: String)
    ensures
        r@ == normalized(s@, strip),
{
    let nfd = nfd_string(s);
    let chars = chars_of(nfd.as_str());
    let without_length = remove_length_marks(&chars);
    if strip {
        let bare = remove_combining_marks(&without_length);
        let joined = string_from_chars(&bare);
        nfc_string(joined.as_str())
    } else {
        let joined = string_from_chars(&without_length);
        nfc_string(joined.as_str())
    }
}

/// NFD, vowel-length and accent marks removed, then NFC: breathings, iota
/// subscript and diaeresis stay.
pub open spec fn accents_stripped(s: Seq<char>) -> Seq<char> {
    nfc_of(drop_accents_and_length(nfd_of(s)))
}

/// Strip only the accent marks (acute, grave, circumflex) and the length
/// marks, keeping breathings, iota subscript and diaeresis.
pub fn strip_only_accents(s: &str) -> (r: String)
    ensures
        r@ == accents_stripped(s@),
{
    let nfd = nfd_string(s);
    let chars = chars_of(nfd.as_str());
    let kept = remove_accents_and_length(&chars);
    let joined = string_from_chars(&kept);
    nfc_string(joined.as_str())
}

// ── Leading article ────────────────────────────────────────────────────────

/// Every form of the Greek definite article, in the order they are tried.
pub open spec fn greek_articles() -> Seq<Seq<char>> {
    seq!["ὁ"@, "ἡ"@, "τό"@, "τὸ"@, "τοῦ"@, "τῆς"@, "τῷ"@, "τῇ"@, "τόν"@, "τήν"@, "τὸν"@, "τὴν"@, "οἱ"@, "αἱ"@, "τά"@, "τὰ"@, "τῶν"@, "τοῖς"@, "ταῖς"@, "τούς"@, "τάς"@, "τοὺς"@, "τὰς"@, "τώ"@, "τοῖν"@]
}

fn article_list() -> (v: Vec<&'static str>)
    ensures
        v.len() == greek_articles().len(),
        forall|i: int| 0 <= i < v.len() ==> #[trigger] v[i]@ == greek_articles()[i],
{
    let v: Vec<&'static str> = vec!["ὁ", "ἡ", "τό", "τὸ", "τοῦ", "τῆς", "τῷ", "τῇ", "τόν", "τήν", "τὸν", "τὴν", "οἱ", "αἱ", "τά", "τὰ", "τῶν", "τοῖς", "ταῖς", "τούς", "τάς", "τοὺς", "τὰς", "τώ", "τοῖν"];
    v
}

/// `p` is a prefix of `t`.
pub open spec fn starts_with(t: Seq<char>, p: Seq<char>) -> bool {
    p.len() <= t.len() && t.take(p.len() as int) == p
}

/// What is left of `t` after the article `a`, when `t` is `a`, then
/// whitespace, then a non-blank rest (trimmed at its start).
pub open spec fn after_article(t: Seq<char>, a: Seq<char>) -> Option<Seq<char>> {
    if starts_with(t, a) && a.len() < t.len() && is_white_space(t[a.len() as int])
        && trim_start_seq(t.skip(a.len() as int)).len() > 0 {
        Some(trim_start_seq(t.skip(a.len() as int)))
    } else {
        None
    }
}

/// `t` without the first article of `arts` that it starts with.
pub open spec fn strip_first_article(t: Seq<char>, arts: Seq<Seq<char>>) -> Seq<char>
    decreases arts.len(),
{
    if arts.len() == 0 {
        t
    } else {
        match after_article(t, arts[0]) {
            Some(r) => r,
            None => strip_first_article(t, arts.drop_first()),
        }
    }
}

/// The trimmed text without its leading definite article, if it has one
/// followed by whitespace and more text.
pub open spec fn without_leading_article(s: Seq<char>) -> Seq<char> {
    strip_first_article(trim_seq(s), greek_articles())
}

fn has_prefix(t: &str, p: &str) -> (r: bool)
    ensures
        r == starts_with(t@, p@),
{
    let n = p.unicode_len();
    if n > t.unicode_len() {
        return false;
    }
    let mut i: usize = 0;
    while i < n
        invariant
            n == p@.len(),
            n <= t@.len(),
            i <= n,
            forall|j: int| 0 <= j < i ==> t@[j] == p@[j],
        decreases n - i,
    {
        if t.get_char(i) != p.get_char(i) {
            assert(t@.take(n as int)[i as int] != p@[i as int]);
            return false;
        }
        i = i + 1;
    }
    assert(t@.take(n as int) =~= p@);
    true
}

/// If `s` (trimmed) starts with a Greek definite article followed by
/// whitespace and more text, returns that text; otherwise the trimmed `s`.
pub fn strip_leading_article(s: &str) -> (r: &str)
    ensures
        r@ == without_leading_article(s@),
{
    let t = trim(s);
    let arts = article_list();
    let ghost all = greek_articles();
    let mut k: usize = 0;
    assert(all.skip(0) =~= all);
    while k < arts.len()
        invariant
            t@ == trim_seq(s@),
            arts.len() == all.len(),
            all == greek_articles(),
            forall|i: int| 0 <= i < arts.len() ==> #[trigger] arts[i]@ == all[i],
            k <= arts.len(),
            strip_first_article(t@, all) == strip_first_article(t@, all.skip(k as int)),
        decreases arts.len() - k,
    {
        let art = arts[k];
        assert(all.skip(k as int)[0] == art@);
        assert(all.skip(k as int).drop_first() =~= all.skip(k + 1));
        if has_prefix(t, art) {
            let alen = art.unicode_len();
            let tlen = t.unicode_len();
            if alen < tlen && is_whitespace(t.get_char(alen)) {
                let rest = t.substring_char(alen, tlen);
                assert(rest@ =~= t@.skip(alen as int));
                let trimmed = trim_start(rest);
                if trimmed.unicode_len() > 0 {
                    return trimmed;
                }
            }
        }
        k = k + 1;
    }
    assert(all.skip(arts.len() as int).len() == 0);
    t
}

// ── Answer comparison ──────────────────────────────────────────────────────

/// Whether `answer` is accepted for `expected`: equal after trimming,
/// normalising and lower-casing both; or equal to `expected` with its
/// leading article removed, that form normalised and lower-cased too.
pub open spec fn greek_matches(answer: Seq<char>, expected: Seq<char>, ignore: bool) -> bool {
    let a = lowercase_of(normalized(trim_seq(answer), ignore));
    let e = lowercase_of(normalized(trim_seq(expected), ignore));
    let stripped = without_leading_article(trim_seq(expected));
    a == e || (stripped != trim_seq(expected) && a == lowercase_of(normalized(stripped, ignore)))
}

/// Compare two Greek strings. `ignore_diacritics` strips all combining marks
/// before comparing; the leading definite article of `expected` is optional.
pub fn compare_greek(answer: &str, expected: &str, ignore_diacritics: bool) -> (r: bool)
    ensures
        r == greek_matches(answer@, expected@, ignore_diacritics),
{
    let na = normalize(trim(answer), ignore_diacritics);
    let a = to_lowercase(na.as_str());
    let ne = normalize(trim(expected), ignore_diacritics);
    let e = to_lowercase(ne.as_str());
    if a == e {
        return true;
    }
    let te = trim(expected);
    let stripped = strip_leading_article(te);
    if !str_eq(stripped, te) {
        let ne2 = normalize(stripped, ignore_diacritics);
        let e2 = to_lowercase(ne2.as_str());
        if a == e2 {
            return true;
        }
    }
    false
}

/// The comparison key of one answer character: the character alone,
/// normalised and lower-cased.
pub open spec fn char_key(c: char, ignore: bool) -> Seq<char> {
    lowercase_of(normalized(seq![c], ignore))
}

/// The `i`-th character of `e` as a one-character sequence, or empty past
/// its end.
pub open spec fn key_at(e: Seq<char>, i: int) -> Seq<char> {
    if 0 <= i < e.len() {
        seq![e[i]]
    } else {
        Seq::empty()
    }
}

/// The expected text as the diff sees it: trimmed, normalised, lower-cased.
pub open spec fn diff_target(expected: Seq<char>, ignore: bool) -> Seq<char> {
    lowercase_of(normalized(trim_seq(expected), ignore))
}

/// For each character of the trimmed answer, whether its own key equals the
/// character of the normalised expected text at the same index.
pub fn diff_chars(answer: &str, expected: &str, ignore_diacritics: bool) -> (r: Vec<(char, bool)>)
    ensures
        r.len() == trim_seq(answer@).len(),
        forall|i: int|
            0 <= i < r.len() ==> (#[trigger] r[i]).0 == trim_seq(answer@)[i] && r[i].1 == (
            char_key(trim_seq(answer@)[i], ignore_diacritics) == key_at(
                diff_target(expected@, ignore_diacritics),
                i,
            )),
{
    let ne = normalize(trim(expected), ignore_diacritics);
    let le = to_lowercase(ne.as_str());
    let e_norm = chars_of(le.as_str());
    let ans = chars_of(trim(answer));
    let mut r: Vec<(char, bool)> = Vec::new();
    let mut i: usize = 0;
    while i < ans.len()
        invariant
            ans@ == trim_seq(answer@),
            e_norm@ == diff_target(expected@, ignore_diacritics),
            i <= ans.len(),
            r.len() == i,
            forall|j: int|
                0 <= j < i ==> (#[trigger] r[j]).0 == ans@[j] && r[j].1 == (char_key(
                    ans@[j],
                    ignore_diacritics,
                ) == key_at(e_norm@, j)),
        decreases ans.len() - i,
    {
        let c = ans[i];
        let one = string_from_chars(&vec![c]);
        assert(one@ =~= seq![c]);
        let nc = normalize(one.as_str(), ignore_diacritics);
        let c_key = to_lowercase(nc.as_str());
        let e_key = if i < e_norm.len() {
            let k = string_from_chars(&vec![e_norm[i]]);
            assert(k@ =~= seq![e_norm@[i as int]]);
            k
        } else {
            String::new()
        };
        r.push((c, c_key == e_key));
        i = i + 1;
    }
    r
}

// ── Edit distance ──────────────────────────────────────────────────────────

pub open spec fn min_nat(x: nat, y: nat) -> nat {
    if x <= y {
        x
    } else {
        y
    }
}

/// Levenshtein distance: the least number of single-character insertions,
/// deletions and substitutions that turn `a` into `b`.
pub open spec fn edit_distance(a: Seq<char>, b: Seq<char>) -> nat
    decreases a.len() + b.len(),
{
    if a.len() == 0 {
        b.len()
    } else if b.len() == 0 {
        a.len()
    } else {
        let cost: nat = if a.last() == b.last() {
            0
        } else {
            1
        };
        min_nat(
            min_nat(
                edit_distance(a.drop_last(), b) + 1,
                edit_distance(a, b.drop_last()) + 1,
            ),
            edit_distance(a.drop_last(), b.drop_last()) + cost,
        )
    }
}

/// The distance never exceeds the longer length.
pub proof fn lemma_edit_distance_at_most_max(a: Seq<char>, b: Seq<char>)
    ensures
        edit_distance(a, b) <= if a.len() >= b.len() {
            a.len()
        } else {
            b.len()
        },
    decreases a.len() + b.len(),
{
    if a.len() > 0 && b.len() > 0 {
        lemma_edit_distance_at_most_max(a.drop_last(), b.drop_last());
    }
}

/// A string is at distance zero from itself.
pub proof fn lemma_edit_distance_self(a: Seq<char>)
    ensures
        edit_distance(a, a) == 0,
    decreases a.len(),
{
    if a.len() > 0 {
        lemma_edit_distance_self(a.drop_last());
    }
}

/// Distance zero means equal strings.
pub proof fn lemma_edit_distance_zero(a: Seq<char>, b: Seq<char>)
    requires
        edit_distance(a, b) == 0,
    ensures
        a == b,
    decreases a.len() + b.len(),
{
    if a.len() > 0 && b.len() > 0 {
        lemma_edit_distance_zero(a.drop_last(), b.drop_last());
        assert(a =~= a.drop_last().push(a.last()));
        assert(b =~= b.drop_last().push(b.last()));
    } else {
        assert(a =~= b);
    }
}

/// The distance is symmetric.
pub proof fn lemma_edit_distance_symmetric(a: Seq<char>, b: Seq<char>)
    ensures
        edit_distance(a, b) == edit_distance(b, a),
    decreases a.len() + b.len(),
{
    if a.len() > 0 && b.len() > 0 {
        lemma_edit_distance_symmetric(a.drop_last(), b);
        lemma_edit_distance_symmetric(a, b.drop_last());
        lemma_edit_distance_symmetric(a.drop_last(), b.drop_last());
    }
}

/// The distance is at least the difference of the lengths.
pub proof fn lemma_edit_distance_at_least_length_gap(a: Seq<char>, b: Seq<char>)
    ensures
        edit_distance(a, b) + b.len() >= a.len(),
        edit_distance(a, b) + a.len() >= b.len(),
    decreases a.len() + b.len(),
{
    if a.len() > 0 && b.len() > 0 {
        lemma_edit_distance_at_least_length_gap(a.drop_last(), b);
        lemma_edit_distance_at_least_length_gap(a, b.drop_last());
        lemma_edit_distance_at_least_length_gap(a.drop_last(), b.drop_last());
    }
}

/// Classic Levenshtein edit distance over characters.
pub fn levenshtein(a: &str, b: &str) -> (d: usize)
    ensures
        d == edit_distance(a@, b@),
{
    let av = chars_of(a);
    let bv = chars_of(b);
    let n = av.len();
    let m = bv.len();
    if n == 0 {
        return m;
    }
    if m == 0 {
        return n;
    }
    let mut prev: Vec<usize> = Vec::new();
    let mut j: usize = 0;
    while j < m
        invariant
            j <= m,
            m == bv@.len(),
            prev@.len() == j,
            forall|k: int|
                0 <= k < j ==> #[trigger] prev@[k] == edit_distance(av@.take(0), bv@.take(k)),
        decreases m - j,
    {
        prev.push(j);
        j = j + 1;
    }
    prev.push(m);
    assert(prev.len() == m + 1);
    assert(forall|k: int|
        0 <= k <= m ==> #[trigger] prev@[k] == edit_distance(av@.take(0), bv@.take(k)));
    let mut i: usize = 0;
    while i < n
        invariant
            n == av@.len(),
            m == bv@.len(),
            0 < m < usize::MAX,
            i <= n,
            prev@.len() == m + 1,
            forall|k: int|
                0 <= k <= m ==> #[trigger] prev@[k] == edit_distance(av@.take(i as int), bv@.take(k)),
        decreases n - i,
    {
        let row = i + 1;
        let mut curr: Vec<usize> = Vec::new();
        assert(bv@.take(0).len() == 0);
        curr.push(row);
        let mut j: usize = 0;
        while j < m
            invariant
                n == av@.len(),
                m == bv@.len(),
                0 < m < usize::MAX,
                prev@.len() == m + 1,
                row == i + 1,
                1 <= row <= n,
                j <= m,
                curr@.len() == j + 1,
                forall|k: int|
                    0 <= k <= m ==> #[trigger] prev@[k] == edit_distance(
                        av@.take(row - 1),
                        bv@.take(k),
                    ),
                forall|k: int|
                    0 <= k <= j ==> #[trigger] curr@[k] == edit_distance(
                        av@.take(row as int),
                        bv@.take(k),
                    ),
            decreases m - j,
        {
            let col = j + 1;
            let ghost x = av@.take(row as int);
            let ghost y = bv@.take(col as int);
            assert(x.drop_last() =~= av@.take(row - 1));
            assert(y.drop_last() =~= bv@.take(col - 1));
            assert(x.last() == av@[row - 1]);
            assert(y.last() == bv@[col - 1]);
            proof {
                lemma_edit_distance_at_most_max(av@.take(row - 1), bv@.take(col as int));
                lemma_edit_distance_at_most_max(av@.take(row - 1), bv@.take(col - 1));
            }
            let cost: usize = if av[row - 1] == bv[col - 1] {
                0
            } else {
                1
            };
            let up = prev[col] + 1;
            let diag = prev[col - 1] + cost;
            let best = if up <= diag {
                up
            } else {
                diag
            };
            let left = curr[col - 1];
            let v = if left < best {
                left + 1
            } else {
                best
            };
            curr.push(v);
            j = col;
        }
        prev = curr;
        i = row;
    }
    assert(av@.take(n as int) =~= av@);
    assert(bv@.take(m as int) =~= bv@);
    prev[m]
}

/// The similarity key of a candidate against the correct answer: edit
/// distance of the bare letters, and how much further apart they are once
/// breathings and iota subscripts count as well.
pub open spec fn similarity(candidate: Seq<char>, correct: Seq<char>) -> (nat, nat) {
    let d_letters = edit_distance(
        lowercase_of(normalized(candidate, true)),
        lowercase_of(normalized(correct, true)),
    );
    let d_no_accent = edit_distance(
        lowercase_of(accents_stripped(candidate)),
        lowercase_of(accents_stripped(correct)),
    );
    (d_letters, if d_no_accent >= d_letters {
        (d_no_accent - d_letters) as nat
    } else {
        0
    })
}

/// Similarity score between a candidate Greek form and the correct answer.
/// Lower is more similar: `(base-letter edit distance, diacritic-only
/// distance)`, so `(0, 0)` means identical letters where only accents differ.
pub fn similarity_score(candidate: &str, correct: &str) -> (r: (usize, usize))
    ensures
        r.0 == similarity(candidate@, correct@).0,
        r.1 == similarity(candidate@, correct@).1,
{
    let nc = normalize(candidate, true);
    let cand_letters = to_lowercase(nc.as_str());
    let nk = normalize(correct, true);
    let corr_letters = to_lowercase(nk.as_str());
    let d_letters = levenshtein(cand_letters.as_str(), corr_letters.as_str());
    let ac = strip_only_accents(candidate);
    let cand_no_accent = to_lowercase(ac.as_str());
    let ak = strip_only_accents(correct);
    let corr_no_accent = to_lowercase(ak.as_str());
    let d_no_accent = levenshtein(cand_no_accent.as_str(), corr_no_accent.as_str());
    (d_letters, d_no_accent.saturating_sub(d_letters))
}

/// A form scores `(0, 0)` against itself.
pub proof fn lemma_similarity_self(s: Seq<char>)
    ensures
        similarity(s, s) == (0nat, 0nat),
{
    lemma_edit_distance_self(lowercase_of(normalized(s, true)));
    lemma_edit_distance_self(lowercase_of(accents_stripped(s)));
}

/// Scoring is symmetric in the two forms.
pub proof fn lemma_similarity_symmetric(a: Seq<char>, b: Seq<char>)
    ensures
        similarity(a, b) == similarity(b, a),
{
    lemma_edit_distance_symmetric(
        lowercase_of(normalized(a, true)),
        lowercase_of(normalized(b, true)),
    );
    lemma_edit_distance_symmetric(
        lowercase_of(accents_stripped(a)),
        lowercase_of(accents_stripped(b)),
    );
}

/// Every answer matches itself, with or without diacritics.
pub proof fn lemma_compare_reflexive(s: Seq<char>, ignore: bool)
    ensures
        greek_matches(s, s, ignore),
{
}

/// The filters leave no mark of the kinds they remove, and keep every other
/// character: vowel-length marks are always gone before composition, and
/// with stripping every combining mark is.
pub proof fn lemma_marks_removed(s: Seq<char>)
    ensures
        forall|i: int|
            0 <= i < drop_length_marks(s).len() ==> !length_mark(#[trigger] drop_length_marks(s)[i]),
        forall|i: int|
            0 <= i < drop_combining_marks(s).len() ==> !combining_mark(
                #[trigger] drop_combining_marks(s)[i],
            ),
        forall|i: int|
            0 <= i < drop_accents_and_length(s).len() ==> !length_mark(
                #[trigger] drop_accents_and_length(s)[i],
            ) && !accent_mark(drop_accents_and_length(s)[i]),
        forall|i: int|
            0 <= i < s.len() && !combining_mark(#[trigger] s[i]) ==> drop_combining_marks(s).contains(
                s[i],
            ),
    decreases s.len(),
{
    if s.len() > 0 {
        let d = s.drop_last();
        lemma_marks_removed(d);
        assert forall|i: int| 0 <= i < drop_length_marks(s).len() implies !length_mark(
            #[trigger] drop_length_marks(s)[i],
        ) by {
            let p = drop_length_marks(d);
            if i < p.len() {
                assert(drop_length_marks(s)[i] == p[i]);
            }
        }
        assert forall|i: int| 0 <= i < drop_accents_and_length(s).len() implies !length_mark(
            #[trigger] drop_accents_and_length(s)[i],
        ) && !accent_mark(drop_accents_and_length(s)[i]) by {
            let p = drop_accents_and_length(d);
            if i < p.len() {
                assert(drop_accents_and_length(s)[i] == p[i]);
            }
        }
        assert forall|i: int| 0 <= i < s.len() && !combining_mark(#[trigger] s[i]) implies drop_combining_marks(
            s,
        ).contains(s[i]) by {
            let r = drop_combining_marks(s);
            if i < d.len() {
                assert(d[i] == s[i]);
                let k = choose|k: int| 0 <= k < drop_combining_marks(d).len() && drop_combining_marks(d)[k] == s[i];
                assert(r[k] == s[i]);
            } else {
                assert(r[r.len() - 1] == s[i]);
            }
        }
    }
}

/// The forms of the Greek definite article, in every gender, number and
/// case, with their accent variants.
pub open spec fn definite_article(a: Seq<char>) -> bool {
    a == "ὁ"@ || a == "ἡ"@ || a == "τό"@ || a == "τὸ"@ || a == "τοῦ"@ || a == "τῆς"@ || a == "τῷ"@ || a == "τῇ"@ || a == "τόν"@ || a == "τήν"@ || a == "τὸν"@ || a == "τὴν"@ || a == "οἱ"@ || a == "αἱ"@ || a == "τά"@ || a == "τὰ"@ || a == "τῶν"@ || a == "τοῖς"@ || a == "ταῖς"@ || a == "τούς"@ || a == "τάς"@ || a == "τοὺς"@ || a == "τὰς"@ || a == "τώ"@ || a == "τοῖν"@
}

proof fn lemma_articles_plain()
    ensures
        forall|k: int|
            0 <= k < greek_articles().len() ==> (#[trigger] greek_articles()[k]).len() > 0 && forall|j: int|
                0 <= j < greek_articles()[k].len() ==> !is_white_space(#[trigger] greek_articles()[k][j]),
{
    reveal_strlit("ὁ");
    reveal_strlit("ἡ");
    reveal_strlit("τό");
    reveal_strlit("τὸ");
    reveal_strlit("τοῦ");
    reveal_strlit("τῆς");
    reveal_strlit("τῷ");
    reveal_strlit("τῇ");
    reveal_strlit("τόν");
    reveal_strlit("τήν");
    reveal_strlit("τὸν");
    reveal_strlit("τὴν");
    reveal_strlit("οἱ");
    reveal_strlit("αἱ");
    reveal_strlit("τά");
    reveal_strlit("τὰ");
    reveal_strlit("τῶν");
    reveal_strlit("τοῖς");
    reveal_strlit("ταῖς");
    reveal_strlit("τούς");
    reveal_strlit("τάς");
    reveal_strlit("τοὺς");
    reveal_strlit("τὰς");
    reveal_strlit("τώ");
    reveal_strlit("τοῖν");
    let arts = greek_articles();
    assert forall|k: int|
        0 <= k < arts.len() implies (#[trigger] arts[k]).len() > 0 && forall|j: int|
            0 <= j < arts[k].len() ==> !is_white_space(#[trigger] arts[k][j]) by {
        assert(0 <= k < 25);
    }
}

proof fn lemma_trim_word(w: Seq<char>)
    requires
        w.len() > 0,
        !is_white_space(w[0]),
        !is_white_space(w[w.len() - 1]),
    ensures
        trim_start_seq(w) == w,
        trim_seq(w) == w,
{
}

proof fn lemma_after_article(a: Seq<char>, b: Seq<char>, w: Seq<char>)
    requires
        a.len() > 0,
        forall|j: int| 0 <= j < a.len() ==> !is_white_space(#[trigger] a[j]),
        forall|j: int| 0 <= j < b.len() ==> !is_white_space(#[trigger] b[j]),
        w.len() > 0,
        !is_white_space(w[0]),
    ensures
        after_article(a + seq![' '] + w, b) == if b == a {
            Some(w)
        } else {
            None
        },
{
    let t = a + seq![' '] + w;
    if b == a {
        assert(t.take(a.len() as int) =~= a);
        assert(t[a.len() as int] == ' ');
        let rest = t.skip(a.len() as int);
        assert(rest.drop_first() =~= w);
        assert(trim_start_seq(w) == w);
        assert(trim_start_seq(rest) == trim_start_seq(rest.drop_first()));
    } else if starts_with(t, b) && b.len() < t.len() && is_white_space(t[b.len() as int]) {
        if b.len() < a.len() {
            assert(t[b.len() as int] == a[b.len() as int]);
        } else if b.len() == a.len() {
            assert(b =~= a) by {
                assert forall|j: int| 0 <= j < b.len() implies b[j] == a[j] by {
                    assert(t.take(b.len() as int)[j] == t[j]);
                }
            }
        } else {
            assert(t.take(b.len() as int)[a.len() as int] == t[a.len() as int]);
            assert(b[a.len() as int] == ' ');
        }
    }
}

proof fn lemma_strip_found(t: Seq<char>, arts: Seq<Seq<char>>, a: Seq<char>, r: Seq<char>)
    requires
        arts.contains(a),
        forall|k: int|
            0 <= k < arts.len() ==> after_article(t, #[trigger] arts[k]) == if arts[k] == a {
                Some(r)
            } else {
                None
            },
    ensures
        strip_first_article(t, arts) == r,
    decreases arts.len(),
{
    if arts[0] != a {
        let rest = arts.drop_first();
        let k = choose|k: int| 0 <= k < arts.len() && arts[k] == a;
        assert(rest[k - 1] == a);
        assert forall|k: int| 0 <= k < rest.len() implies after_article(t, #[trigger] rest[k]) == if rest[k] == a {
            Some(r)
        } else {
            None
        } by {
            assert(rest[k] == arts[k + 1]);
        }
        lemma_strip_found(t, rest, a, r);
    }
}

/// The leading definite article of the expected form is optional: for any
/// form of the article and any word (non-empty, without surrounding
/// whitespace), the article followed by a space and the word loses exactly
/// the article, and the word alone is accepted for it, with or without
/// diacritics.
pub proof fn lemma_article_optional(w: Seq<char>, ignore: bool)
    requires
        w.len() > 0,
        !is_white_space(w[0]),
        !is_white_space(w[w.len() - 1]),
    ensures
        forall|a: Seq<char>|
            #![trigger definite_article(a)]
            definite_article(a) ==> without_leading_article(a + " "@ + w) == w && greek_matches(
                w,
                a + " "@ + w,
                ignore,
            ),
{
    reveal_strlit(" ");
    assert(" "@ =~= seq![' ']);
    lemma_articles_plain();
    lemma_trim_word(w);
    let arts = greek_articles();
    assert forall|a: Seq<char>|
        #![trigger definite_article(a)]
        definite_article(a) implies without_leading_article(a + " "@ + w) == w && greek_matches(
            w,
            a + " "@ + w,
            ignore,
        ) by {
        if a == "ὁ"@ {
            assert(arts[0] == a);
        } else if a == "ἡ"@ {
            assert(arts[1] == a);
        } else if a == "τό"@ {
            assert(arts[2] == a);
        } else if a == "τὸ"@ {
            assert(arts[3] == a);
        } else if a == "τοῦ"@ {
            assert(arts[4] == a);
        } else if a == "τῆς"@ {
            assert(arts[5] == a);
        } else if a == "τῷ"@ {
            assert(arts[6] == a);
        } else if a == "τῇ"@ {
            assert(arts[7] == a);
        } else if a == "τόν"@ {
            assert(arts[8] == a);
        } else if a == "τήν"@ {
            assert(arts[9] == a);
        } else if a == "τὸν"@ {
            assert(arts[10] == a);
        } else if a == "τὴν"@ {
            assert(arts[11] == a);
        } else if a == "οἱ"@ {
            assert(arts[12] == a);
        } else if a == "αἱ"@ {
            assert(arts[13] == a);
        } else if a == "τά"@ {
            assert(arts[14] == a);
        } else if a == "τὰ"@ {
            assert(arts[15] == a);
        } else if a == "τῶν"@ {
            assert(arts[16] == a);
        } else if a == "τοῖς"@ {
            assert(arts[17] == a);
        } else if a == "ταῖς"@ {
            assert(arts[18] == a);
        } else if a == "τούς"@ {
            assert(arts[19] == a);
        } else if a == "τάς"@ {
            assert(arts[20] == a);
        } else if a == "τοὺς"@ {
            assert(arts[21] == a);
        } else if a == "τὰς"@ {
            assert(arts[22] == a);
        } else if a == "τώ"@ {
            assert(arts[23] == a);
        } else if a == "τοῖν"@ {
            assert(arts[24] == a);
        }
        assert(arts.contains(a));
        let t = a + seq![' '] + w;
        assert(a + " "@ + w == t);
        assert(t[0] == a[0]);
        assert(t[t.len() - 1] == w[w.len() - 1]);
        lemma_trim_word(t);
        assert forall|k: int| 0 <= k < arts.len() implies after_article(t, #[trigger] arts[k]) == if arts[k]
            == a {
            Some(w)
        } else {
            None
        } by {
            lemma_after_article(a, arts[k], w);
        }
        lemma_strip_found(t, arts, a, w);
        assert(t.len() != w.len());
    }
}

proof fn lemma_drop_length_filter(s: Seq<char>)
    ensures
        drop_length_marks(s) == s.filter(|c: char| c != '\u{304}' && c != '\u{306}'),
    decreases s.len(),
{
    reveal(Seq::filter);
    if s.len() > 0 {
        lemma_drop_length_filter(s.drop_last());
    }
}

proof fn lemma_drop_combining_filter(s: Seq<char>)
    ensures
        drop_combining_marks(s) == s.filter(
            |c: char| !(('\u{300}' <= c && c <= '\u{36f}') || ('\u{1dc0}' <= c && c <= '\u{1dff}')),
        ),
    decreases s.len(),
{
    reveal(Seq::filter);
    if s.len() > 0 {
        lemma_drop_combining_filter(s.drop_last());
    }
}

proof fn lemma_drop_both(s: Seq<char>)
    ensures
        drop_combining_marks(drop_length_marks(s)) == drop_combining_marks(s),
    decreases s.len(),
{
    if s.len() > 0 {
        lemma_drop_both(s.drop_last());
        if !length_mark(s.last()) {
            assert(drop_length_marks(s).drop_last() == drop_length_marks(s.drop_last()));
        }
    }
}

/// Normalisation decomposes the text (NFD), removes the combining macron
/// U+0304 and breve U+0306 and, when diacritics are stripped, every
/// character of the Combining Diacritical Marks blocks U+0300..U+036F and
/// U+1DC0..U+1DFF, keeping all other characters in order, and composes the
/// rest again (NFC).
pub proof fn lemma_normalized_marks(s: Seq<char>)
    ensures
        normalized(s, false) == nfc_of(nfd_of(s).filter(|c: char| c != '\u{304}' && c != '\u{306}')),
        normalized(s, true) == nfc_of(
            nfd_of(s).filter(
                |c: char| !(('\u{300}' <= c && c <= '\u{36f}') || ('\u{1dc0}' <= c && c <= '\u{1dff}')),
            ),
        ),
{
    lemma_drop_length_filter(nfd_of(s));
    lemma_drop_both(nfd_of(s));
    lemma_drop_combining_filter(nfd_of(s));
}

} // verus!

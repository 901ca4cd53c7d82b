//! Drill order and multiple-choice options for the flashcard modes, and the
//! small editing helpers of the paradigm builder.
use vstd::prelude::*;

use crate::form::{grammar_parts_ru, label_separator, Form};
use crate::text::join_seqs;

verus! {

// ── Drill order ────────────────────────────────────────────────────────────

/// The multiplier of the 64-bit linear congruential generator.
pub const LCG_MUL: u64 = 6364136223846793005;

/// The increment of the 64-bit linear congruential generator.
pub const LCG_INC: u64 = 1442695040888963407;

/// One step of the 64-bit linear congruential generator.
#[verifier::opaque]
pub open spec fn lcg_next(x: u64) -> u64 {
    x.wrapping_mul(LCG_MUL).wrapping_add(LCG_INC)
}

/// The seed mixed with the ids of the forms: each id times its 1-based
/// position times the multiplier, all modulo 2^64.
pub open spec fn mixed_seed(forms: Seq<Form>, seed: u64) -> u64
    decreases forms.len(),
{
    if forms.len() == 0 {
        seed
    } else {
        let i = forms.len() - 1;
        mixed_seed(forms.drop_last(), seed).wrapping_add(
            (forms.last().id as u64).wrapping_mul(((i + 1) as u64).wrapping_mul(LCG_MUL)),
        )
    }
}

/// `s` with the elements at `a` and `b` exchanged.
pub open spec fn swapped(s: Seq<usize>, a: int, b: int) -> Seq<usize> {
    s.update(a, s[b]).update(b, s[a])
}

/// Fisher-Yates steps from position `i` down to 1, drawing from the
/// generator after `rng`.
pub open spec fn shuffle_steps(order: Seq<usize>, rng: u64, i: int) -> Seq<usize>
    decreases i,
{
    if i < 1 {
        order
    } else {
        let r = lcg_next(rng);
        let j = ((r >> 33u64) as usize) % ((i + 1) as usize);
        shuffle_steps(swapped(order, i, j as int), r, i - 1)
    }
}

/// `0, 1, ..., n - 1`.
pub open spec fn identity_order(n: nat) -> Seq<usize> {
    Seq::new(n, |k: int| k as usize)
}

/// The lemma of the form at position `k` of the order.
pub open spec fn lemma_at(order: Seq<usize>, forms: Seq<Form>, k: int) -> i64 {
    forms[order[k] as int].lemma_id
}

/// The first position from `start` on whose lemma differs from `l`.
pub open spec fn later_other(order: Seq<usize>, forms: Seq<Form>, start: int, l: i64) -> Option<int>
    decreases order.len() - start,
{
    if start >= order.len() || start < 0 {
        None
    } else if lemma_at(order, forms, start) != l {
        Some(start)
    } else {
        later_other(order, forms, start + 1, l)
    }
}

/// Whether position `c` can take a form of another lemma than `l` without
/// touching a neighbour of lemma `l`.
pub open spec fn safe_slot(order: Seq<usize>, forms: Seq<Form>, c: int, l: i64) -> bool {
    &&& lemma_at(order, forms, c) != l
    &&& (c == 0 || lemma_at(order, forms, c - 1) != l)
    &&& (c + 1 >= order.len() || lemma_at(order, forms, c + 1) != l)
}

/// Up to `tries` steps of the rotating cursor over positions `0..idx`,
/// stopping at the first safe slot; returns the slot and the cursor.
pub open spec fn cursor_search(
    order: Seq<usize>,
    forms: Seq<Form>,
    idx: usize,
    cursor: usize,
    tries: int,
    l: i64,
) -> (Option<int>, usize)
    decreases tries,
{
    if tries <= 0 || idx == 0 {
        (None, cursor)
    } else {
        let c = cursor.wrapping_add(1) % idx;
        if safe_slot(order, forms, c as int, l) {
            (Some(c as int), c)
        } else {
            cursor_search(order, forms, idx, c, tries - 1, l)
        }
    }
}

/// The adjacent-lemma pass from position `idx` on: where a position repeats
/// the lemma of the one before, it is swapped with the next position of
/// another lemma, or else with a safe earlier slot found by the cursor.
pub open spec fn separate_from(order: Seq<usize>, forms: Seq<Form>, cursor: usize, idx: int) -> Seq<
    usize,
>
    decreases order.len() - idx,
{
    if idx >= order.len() || idx < 1 {
        order
    } else if lemma_at(order, forms, idx - 1) != lemma_at(order, forms, idx) {
        separate_from(order, forms, cursor, idx + 1)
    } else {
        let prev = lemma_at(order, forms, idx - 1);
        let later = later_other(order, forms, idx + 1, prev);
        let found = if later is Some {
            (later, cursor)
        } else {
            cursor_search(order, forms, idx as usize, cursor, idx, lemma_at(order, forms, idx))
        };
        let next = match found.0 {
            Some(t) => if 0 <= t < order.len() {
                swapped(order, idx, t)
            } else {
                order
            },
            None => order,
        };
        separate_from(next, forms, found.1, idx + 1)
    }
}

/// The whole adjacent-lemma pass, with the cursor starting at the seed.
pub open spec fn separated(order: Seq<usize>, forms: Seq<Form>, seed: u64) -> Seq<usize> {
    if order.len() < 2 {
        order
    } else {
        separate_from(order, forms, seed as usize, 1)
    }
}

/// The drill order of the forms for a seed.
pub open spec fn shuffled_order(forms: Seq<Form>, seed: u64) -> Seq<usize> {
    let s = mixed_seed(forms, seed);
    separated(shuffle_steps(identity_order(forms.len()), s, forms.len() - 1), forms, s)
}

/// Every entry indexes a form.
pub open spec fn indexes_into(order: Seq<usize>, n: nat) -> bool {
    forall|k: int| 0 <= k < order.len() ==> (#[trigger] order[k]) < n
}

/// The order lists each of `0..n` exactly once.
pub open spec fn is_permutation_of(order: Seq<usize>, n: nat) -> bool {
    &&& order.len() == n
    &&& indexes_into(order, n)
    &&& order.no_duplicates()
}

fn swap_entries(order: &mut Vec<usize>, a: usize, b: usize)
    requires
        a < old(order)@.len(),
        b < old(order)@.len(),
    ensures
        final(order)@ == swapped(old(order)@, a as int, b as int),
{
    let x = order[a];
    let y = order[b];
    order.set(a, y);
    order.set(b, x);
}

fn first_later_other(order: &Vec<usize>, forms: &[Form], start: usize, l: i64) -> (r: Option<usize>)
    requires
        indexes_into(order@, forms@.len()),
    ensures
        r matches Some(t) ==> later_other(order@, forms@, start as int, l) == Some(t as int)
            && start <= t < order@.len(),
        r is None ==> later_other(order@, forms@, start as int, l) is None,
{
    let mut k = start;
    while k < order.len()
        invariant
            indexes_into(order@, forms@.len()),
            start <= k,
            later_other(order@, forms@, start as int, l) == later_other(order@, forms@, k as int, l),
        decreases order.len() - k,
    {
        if forms[order[k]].lemma_id != l {
            return Some(k);
        }
        k = k + 1;
    }
    None
}

fn rotate_search(order: &Vec<usize>, forms: &[Form], idx: usize, cursor: usize, l: i64) -> (r: (
    Option<usize>,
    usize,
))
    requires
        indexes_into(order@, forms@.len()),
        0 < idx < order@.len(),
    ensures
        ({
            let s = cursor_search(order@, forms@, idx, cursor, idx as int, l);
            &&& r.1 == s.1
            &&& (r.0 matches Some(t) ==> s.0 == Some(t as int) && t < idx)
            &&& (r.0 is None ==> s.0 is None)
        }),
{
    let mut cur = cursor;
    let mut tries: usize = idx;
    while tries > 0
        invariant
            indexes_into(order@, forms@.len()),
            0 < idx < order@.len(),
            tries <= idx,
            cursor_search(order@, forms@, idx, cursor, idx as int, l) == cursor_search(
                order@,
                forms@,
                idx,
                cur,
                tries as int,
                l,
            ),
        decreases tries,
    {
        let c = cur.wrapping_add(1) % idx;
        cur = c;
        let before_ok = c == 0 || forms[order[c - 1]].lemma_id != l;
        let after_ok = c + 1 >= order.len() || forms[order[c + 1]].lemma_id != l;
        if forms[order[c]].lemma_id != l && before_ok && after_ok {
            return (Some(c), c);
        }
        tries = tries - 1;
    }
    (None, cur)
}

/// Rearranges the order so that, where it can, no two consecutive forms
/// belong to the same lemma; only ever exchanges two positions.
pub fn separate_adjacent_lemmas(order: &mut Vec<usize>, forms: &[Form], seed: u64)
    requires
        indexes_into(old(order)@, forms@.len()),
    ensures
        final(order)@ == separated(old(order)@, forms@, seed),
{
    if order.len() < 2 {
        return;
    }
    let mut cursor = #[verifier::truncate] (seed as usize);
    let mut idx: usize = 1;
    while idx < order.len()
        invariant
            indexes_into(order@, forms@.len()),
            order@.len() == old(order)@.len(),
            1 <= idx <= order@.len(),
            separated(old(order)@, forms@, seed) == separate_from(
                order@,
                forms@,
                cursor,
                idx as int,
            ),
        decreases order.len() - idx,
    {
        let prev_lemma = forms[order[idx - 1]].lemma_id;
        let current_lemma = forms[order[idx]].lemma_id;
        if prev_lemma != current_lemma {
            idx = idx + 1;
            continue;
        }
        let mut swap_with = first_later_other(order, forms, idx + 1, prev_lemma);
        if swap_with.is_none() {
            let (found, cur) = rotate_search(order, forms, idx, cursor, current_lemma);
            swap_with = found;
            cursor = cur;
        }
        match swap_with {
            Some(target) => {
                let ghost before = order@;
                swap_entries(order, idx, target);
                assert(forall|k: int|
                    0 <= k < order@.len() ==> order@[k] == before[k] || order@[k] == before[idx as int]
                        || order@[k] == before[target as int]);
            },
            None => {},
        }
        idx = idx + 1;
    }
}

/// The drill order of the forms: a pseudo-random permutation drawn from the
/// seed mixed with the form ids, then rearranged so that consecutive forms
/// belong to different lemmas where possible.
pub fn build_shuffled_order(forms: &[Form], seed: u64) -> (r: Vec<usize>)
    ensures
        r@ == shuffled_order(forms@, seed),
{
    let n = forms.len();
    let mut order: Vec<usize> = Vec::new();
    let mut k: usize = 0;
    while k < n
        invariant
            n == forms@.len(),
            k <= n,
            order@ == identity_order(k as nat),
        decreases n - k,
    {
        order.push(k);
        k = k + 1;
        assert(order@ =~= identity_order(k as nat));
    }
    let mut acc = seed;
    let mut i: usize = 0;
    assert(forms@.take(0) =~= Seq::<Form>::empty());
    while i < n
        invariant
            n == forms@.len(),
            i <= n,
            acc == mixed_seed(forms@.take(i as int), seed),
        decreases n - i,
    {
        assert(forms@.take(i + 1).drop_last() =~= forms@.take(i as int));
        assert(forms@.take(i + 1).last() == forms@[i as int]);
        let id = #[verifier::truncate] (forms[i].id as u64);
        let pos = i as u64 + 1;
        acc = acc.wrapping_add(id.wrapping_mul(pos.wrapping_mul(LCG_MUL)));
        i = i + 1;
    }
    assert(forms@.take(n as int) =~= forms@);
    let shuffle_seed = acc;
    let mut rng = shuffle_seed;
    let mut k: usize = n;
    while k > 1
        invariant
            n == forms@.len(),
            k <= n,
            order@.len() == n,
            indexes_into(order@, n as nat),
            shuffle_steps(identity_order(n as nat), shuffle_seed, n - 1) == shuffle_steps(
                order@,
                rng,
                k - 1,
            ),
        decreases k,
    {
        let i = k - 1;
        rng = rng.wrapping_mul(LCG_MUL).wrapping_add(LCG_INC);
        proof {
            reveal(lcg_next);
        }
        let j = (#[verifier::truncate] ((rng >> 33u64) as usize)) % (i + 1);
        let ghost before = order@;
        swap_entries(&mut order, i, j);
        assert(forall|q: int|
            0 <= q < order@.len() ==> order@[q] == before[q] || order@[q] == before[i as int]
                || order@[q] == before[j as int]);
        k = i;
    }
    assert(identity_order(n as nat) =~= Seq::new(n as nat, |q: int| q as usize));
    separate_adjacent_lemmas(&mut order, forms, shuffle_seed);
    order
}

/// Exchanging two entries keeps a permutation a permutation.
pub proof fn lemma_swapped_permutation(s: Seq<usize>, n: nat, a: int, b: int)
    requires
        is_permutation_of(s, n),
        0 <= a < s.len(),
        0 <= b < s.len(),
    ensures
        is_permutation_of(swapped(s, a, b), n),
{
    let t = swapped(s, a, b);
    assert forall|i: int, j: int| 0 <= i < t.len() && 0 <= j < t.len() && i != j implies t[i]
        != t[j] by {
        let ti = if i == a {
            b
        } else if i == b {
            a
        } else {
            i
        };
        let tj = if j == a {
            b
        } else if j == b {
            a
        } else {
            j
        };
        assert(t[i] == s[ti]);
        assert(t[j] == s[tj]);
    }
    assert forall|k: int| 0 <= k < t.len() implies (#[trigger] t[k]) < n by {
        let tk = if k == a {
            b
        } else if k == b {
            a
        } else {
            k
        };
        assert(t[k] == s[tk]);
    }
}

/// The Fisher-Yates steps keep a permutation a permutation.
pub proof fn lemma_shuffle_permutation(s: Seq<usize>, n: nat, rng: u64, i: int)
    requires
        is_permutation_of(s, n),
        i < s.len(),
        s.len() <= usize::MAX,
    ensures
        is_permutation_of(shuffle_steps(s, rng, i), n),
    decreases i,
{
    if i >= 1 {
        let r = lcg_next(rng);
        let x = (r >> 33u64) as usize;
        let m = (i + 1) as usize;
        let j = x % m;
        assert(m as int == i + 1);
        assert(j < m) by (nonlinear_arith)
            requires
                m > 0,
                j == x % m,
        ;
        lemma_swapped_permutation(s, n, i, j as int);
        lemma_shuffle_permutation(swapped(s, i, j as int), n, r, i - 1);
    }
}

/// The adjacent-lemma pass keeps a permutation a permutation.
pub proof fn lemma_separate_permutation(
    s: Seq<usize>,
    forms: Seq<Form>,
    n: nat,
    cursor: usize,
    idx: int,
)
    requires
        is_permutation_of(s, n),
    ensures
        is_permutation_of(separate_from(s, forms, cursor, idx), n),
    decreases s.len() - idx,
{
    if idx >= s.len() || idx < 1 {
    } else if lemma_at(s, forms, idx - 1) != lemma_at(s, forms, idx) {
        lemma_separate_permutation(s, forms, n, cursor, idx + 1);
    } else {
        let prev = lemma_at(s, forms, idx - 1);
        let later = later_other(s, forms, idx + 1, prev);
        let found = if later is Some {
            (later, cursor)
        } else {
            cursor_search(s, forms, idx as usize, cursor, idx, lemma_at(s, forms, idx))
        };
        let next = match found.0 {
            Some(t) => if 0 <= t < s.len() {
                swapped(s, idx, t)
            } else {
                s
            },
            None => s,
        };
        if let Some(t) = found.0 {
            if 0 <= t < s.len() {
                lemma_swapped_permutation(s, n, idx, t);
            }
        }
        lemma_separate_permutation(next, forms, n, found.1, idx + 1);
    }
}

/// The drill order visits every form exactly once.
pub proof fn lemma_shuffled_order_is_permutation(forms: Seq<Form>, seed: u64)
    requires
        forms.len() <= usize::MAX,
    ensures
        is_permutation_of(shuffled_order(forms, seed), forms.len()),
{
    let n = forms.len();
    let id = identity_order(n);
    assert forall|i: int, j: int| 0 <= i < id.len() && 0 <= j < id.len() && i != j implies id[i]
        != id[j] by {}
    let s = mixed_seed(forms, seed);
    if n > 0 {
        lemma_shuffle_permutation(id, n, s, n - 1);
    } else {
        assert(shuffle_steps(id, s, n - 1) == id);
    }
    let sh = shuffle_steps(id, s, n - 1);
    if sh.len() >= 2 {
        lemma_separate_permutation(sh, forms, n, s as usize, 1);
    }
}

// ── Multiple-choice options ────────────────────────────────────────────────

/// The distractor ordering key: the id scrambled and mixed with the id of
/// the form asked for.
pub open spec fn distractor_key(f: Form, correct_id: i64) -> u64 {
    (f.id as u64).wrapping_mul(2654435761u64) ^ (correct_id as u64).wrapping_mul(1000003u64)
}

/// The display ordering key of an option.
pub open spec fn display_key(f: Form) -> u64 {
    (f.id as u64).wrapping_mul(LCG_MUL)
}

/// The ordering key: distractor key mixed with `salt`, or the display key.
pub open spec fn order_key(f: Form, salt: Option<i64>) -> u64 {
    match salt {
        Some(c) => distractor_key(f, c),
        None => display_key(f),
    }
}

/// `x` inserted into `s` after every form whose key is not greater.
pub open spec fn insert_by_key(s: Seq<Form>, x: Form, salt: Option<i64>) -> Seq<Form>
    decreases s.len(),
{
    if s.len() == 0 {
        seq![x]
    } else if order_key(s.last(), salt) > order_key(x, salt) {
        insert_by_key(s.drop_last(), x, salt).push(s.last())
    } else {
        s.push(x)
    }
}

/// Stable sort of forms by their key.
pub open spec fn sort_by_key(s: Seq<Form>, salt: Option<i64>) -> Seq<Form>
    decreases s.len(),
{
    if s.len() == 0 {
        s
    } else {
        insert_by_key(sort_by_key(s.drop_last(), salt), s.last(), salt)
    }
}

/// Some form of `s` has the Greek text `t`.
pub open spec fn has_greek(s: Seq<Form>, t: Seq<char>) -> bool {
    exists|i: int| 0 <= i < s.len() && (#[trigger] s[i]).greek_form@ == t
}

/// The other forms of the same lemma with another Greek text, in order.
pub open spec fn same_lemma_others(forms: Seq<Form>, correct: Form) -> Seq<Form>
    decreases forms.len(),
{
    if forms.len() == 0 {
        Seq::empty()
    } else {
        let prev = same_lemma_others(forms.drop_last(), correct);
        let f = forms.last();
        if f.id != correct.id && f.lemma_id == correct.lemma_id && f.greek_form@
            != correct.greek_form@ {
            prev.push(f)
        } else {
            prev
        }
    }
}

/// Distractors taken in order while fewer than `n` options are chosen,
/// skipping any whose Greek text is already among the options.
pub open spec fn pick_by_text(ds: Seq<Form>, chosen: Seq<Form>, n: nat) -> Seq<Form>
    decreases ds.len(),
{
    if ds.len() == 0 || chosen.len() >= n {
        chosen
    } else if has_greek(chosen, ds[0].greek_form@) {
        pick_by_text(ds.drop_first(), chosen, n)
    } else {
        pick_by_text(ds.drop_first(), chosen.push(ds[0]), n)
    }
}

/// The options for asking `correct`: it and up to `n - 1` forms of its lemma
/// with other Greek texts, in display order.
pub open spec fn same_lemma_choices(forms: Seq<Form>, correct: Form, n: nat) -> Seq<Form> {
    let ds = sort_by_key(same_lemma_others(forms, correct), Some(correct.id));
    sort_by_key(pick_by_text(ds, seq![correct], n), None)
}

fn order_key_of(f: &Form, salt: Option<i64>) -> (k: u64)
    ensures
        k == order_key(*f, salt),
{
    let id = #[verifier::truncate] (f.id as u64);
    match salt {
        Some(c) => {
            let cu = #[verifier::truncate] (c as u64);
            id.wrapping_mul(2654435761u64) ^ cu.wrapping_mul(1000003u64)
        },
        None => id.wrapping_mul(LCG_MUL),
    }
}

pub(crate) fn sort_forms(v: &Vec<Form>, salt: Option<i64>) -> (r: Vec<Form>)
    ensures
        r@ == sort_by_key(v@, salt),
{
    let mut out: Vec<Form> = Vec::new();
    let mut i: usize = 0;
    assert(v@.take(0) =~= Seq::<Form>::empty());
    while i < v.len()
        invariant
            i <= v@.len(),
            out@ == sort_by_key(v@.take(i as int), salt),
        decreases v.len() - i,
    {
        let x = v[i].duplicate();
        let kx = order_key_of(&x, salt);
        let ghost s = out@;
        assert(v@.take(i + 1).drop_last() =~= v@.take(i as int));
        assert(v@.take(i + 1).last() == x);
        let mut p = out.len();
        assert(s.take(p as int) =~= s);
        assert(s.skip(p as int) =~= Seq::<Form>::empty());
        assert(insert_by_key(s, x, salt) =~= insert_by_key(s.take(p as int), x, salt) + s.skip(
            p as int,
        ));
        while p > 0 && order_key_of(&out[p - 1], salt) > kx
            invariant
                s == out@,
                kx == order_key(x, salt),
                p <= out@.len(),
                insert_by_key(s, x, salt) == insert_by_key(s.take(p as int), x, salt) + s.skip(
                    p as int,
                ),
            decreases p,
        {
            assert(s.take(p as int).drop_last() =~= s.take(p - 1));
            assert(s.take(p as int).last() == s[p - 1]);
            assert(s.skip(p - 1) =~= seq![s[p - 1]] + s.skip(p as int));
            assert(insert_by_key(s.take(p as int), x, salt) == insert_by_key(
                s.take(p - 1),
                x,
                salt,
            ).push(s[p - 1]));
            assert(insert_by_key(s, x, salt) =~= insert_by_key(s.take(p - 1), x, salt) + s.skip(
                p - 1,
            ));
            p = p - 1;
        }
        if p > 0 {
            assert(s.take(p as int).last() == s[p - 1]);
        }
        assert(insert_by_key(s.take(p as int), x, salt) =~= s.take(p as int).push(x));
        out.insert(p, x);
        assert(out@ =~= s.take(p as int).push(x) + s.skip(p as int));
        i = i + 1;
    }
    assert(v@.take(v.len() as int) =~= v@);
    out
}

fn chosen_has_greek(chosen: &Vec<Form>, t: &String) -> (r: bool)
    ensures
        r == has_greek(chosen@, t@),
{
    let mut i: usize = 0;
    while i < chosen.len()
        invariant
            i <= chosen@.len(),
            forall|j: int| 0 <= j < i ==> (#[trigger] chosen@[j]).greek_form@ != t@,
        decreases chosen.len() - i,
    {
        if chosen[i].greek_form == *t {
            return true;
        }
        i = i + 1;
    }
    false
}

fn collect_same_lemma_others(forms: &[Form], correct: &Form) -> (r: Vec<Form>)
    ensures
        r@ == same_lemma_others(forms@, *correct),
{
    let mut others: Vec<Form> = Vec::new();
    let mut i: usize = 0;
    assert(forms@.take(0) =~= Seq::<Form>::empty());
    while i < forms.len()
        invariant
            i <= forms@.len(),
            others@ == same_lemma_others(forms@.take(i as int), *correct),
        decreases forms.len() - i,
    {
        assert(forms@.take(i + 1).drop_last() =~= forms@.take(i as int));
        assert(forms@.take(i + 1).last() == forms@[i as int]);
        let f = &forms[i];
        if f.id != correct.id && f.lemma_id == correct.lemma_id && !(f.greek_form
            == correct.greek_form) {
            others.push(f.duplicate());
        }
        i = i + 1;
    }
    assert(forms@.take(forms.len() as int) =~= forms@);
    others
}

fn pick_options(distractors: &Vec<Form>, correct: &Form, n: usize) -> (r: Vec<Form>)
    ensures
        r@ == pick_by_text(distractors@, seq![*correct], n as nat),
{
    let mut choices: Vec<Form> = Vec::new();
    choices.push(correct.duplicate());
    assert(choices@ =~= seq![*correct]);
    let ghost ds = distractors@;
    let mut k: usize = 0;
    assert(ds.skip(0) =~= ds);
    while k < distractors.len() && choices.len() < n
        invariant
            ds == distractors@,
            k <= ds.len(),
            pick_by_text(ds, seq![*correct], n as nat) == pick_by_text(
                ds.skip(k as int),
                choices@,
                n as nat,
            ),
        decreases distractors.len() - k,
    {
        assert(ds.skip(k as int)[0] == ds[k as int]);
        assert(ds.skip(k as int).drop_first() =~= ds.skip(k + 1));
        let d = &distractors[k];
        if !chosen_has_greek(&choices, &d.greek_form) {
            choices.push(d.duplicate());
        }
        k = k + 1;
    }
    if k == distractors.len() {
        assert(ds.skip(k as int).len() == 0);
    }
    choices
}

/// Pick `n` forms (the asked one and up to `n - 1` distractors) for multiple
/// choice, all from the lemma of the asked form, with distinct Greek texts.
pub fn build_same_lemma_choices(forms: &[Form], correct: &Form, n: usize) -> (r: Vec<Form>)
    ensures
        r@ == same_lemma_choices(forms@, *correct, n as nat),
{
    let others = collect_same_lemma_others(forms, correct);
    let distractors = sort_forms(&others, Some(correct.id));
    let choices = pick_options(&distractors, correct, n);
    sort_forms(&choices, None)
}

/// The Russian grammatical description of a form.
pub open spec fn grammar_text(f: Form) -> Seq<char> {
    join_seqs(grammar_parts_ru(f), label_separator())
}

/// Some form of `s` has the grammatical description `t`.
pub open spec fn has_grammar(s: Seq<Form>, t: Seq<char>) -> bool {
    exists|i: int| 0 <= i < s.len() && grammar_text(#[trigger] s[i]) == t
}

/// The other forms of the same lemma with another description, in order.
pub open spec fn same_lemma_other_grammar(forms: Seq<Form>, correct: Form) -> Seq<Form>
    decreases forms.len(),
{
    if forms.len() == 0 {
        Seq::empty()
    } else {
        let prev = same_lemma_other_grammar(forms.drop_last(), correct);
        let f = forms.last();
        if f.id != correct.id && f.lemma_id == correct.lemma_id && grammar_text(f)
            != grammar_text(correct) {
            prev.push(f)
        } else {
            prev
        }
    }
}

/// Distractors taken in order while fewer than `n` options are chosen,
/// skipping any whose description is already among the options.
pub open spec fn pick_by_grammar(ds: Seq<Form>, chosen: Seq<Form>, n: nat) -> Seq<Form>
    decreases ds.len(),
{
    if ds.len() == 0 || chosen.len() >= n {
        chosen
    } else if has_grammar(chosen, grammar_text(ds[0])) {
        pick_by_grammar(ds.drop_first(), chosen, n)
    } else {
        pick_by_grammar(ds.drop_first(), chosen.push(ds[0]), n)
    }
}

/// The options for asking the description of `correct`: it and up to
/// `n - 1` forms of its lemma with other descriptions, in display order.
pub open spec fn same_lemma_grammar_choices(forms: Seq<Form>, correct: Form, n: nat) -> Seq<Form> {
    let ds = sort_by_key(same_lemma_other_grammar(forms, correct), Some(correct.id));
    sort_by_key(pick_by_grammar(ds, seq![correct], n), None)
}

fn chosen_has_grammar(chosen: &Vec<Form>, t: &String) -> (r: bool)
    ensures
        r == has_grammar(chosen@, t@),
{
    let mut i: usize = 0;
    while i < chosen.len()
        invariant
            i <= chosen@.len(),
            forall|j: int| 0 <= j < i ==> grammar_text(#[trigger] chosen@[j]) != t@,
        decreases chosen.len() - i,
    {
        if chosen[i].grammar_label_ru() == *t {
            return true;
        }
        i = i + 1;
    }
    false
}

fn collect_other_grammar(forms: &[Form], correct: &Form) -> (r: Vec<Form>)
    ensures
        r@ == same_lemma_other_grammar(forms@, *correct),
{
    let target = correct.grammar_label_ru();
    let mut others: Vec<Form> = Vec::new();
    let mut i: usize = 0;
    assert(forms@.take(0) =~= Seq::<Form>::empty());
    while i < forms.len()
        invariant
            i <= forms@.len(),
            target@ == grammar_text(*correct),
            others@ == same_lemma_other_grammar(forms@.take(i as int), *correct),
        decreases forms.len() - i,
    {
        assert(forms@.take(i + 1).drop_last() =~= forms@.take(i as int));
        assert(forms@.take(i + 1).last() == forms@[i as int]);
        let f = &forms[i];
        if f.id != correct.id && f.lemma_id == correct.lemma_id {
            let g = f.grammar_label_ru();
            if !(g == target) {
                others.push(f.duplicate());
            }
        }
        i = i + 1;
    }
    assert(forms@.take(forms.len() as int) =~= forms@);
    others
}

fn pick_grammar_options(distractors: &Vec<Form>, correct: &Form, n: usize) -> (r: Vec<Form>)
    ensures
        r@ == pick_by_grammar(distractors@, seq![*correct], n as nat),
{
    let mut choices: Vec<Form> = Vec::new();
    choices.push(correct.duplicate());
    assert(choices@ =~= seq![*correct]);
    let ghost ds = distractors@;
    let mut k: usize = 0;
    assert(ds.skip(0) =~= ds);
    while k < distractors.len() && choices.len() < n
        invariant
            ds == distractors@,
            k <= ds.len(),
            pick_by_grammar(ds, seq![*correct], n as nat) == pick_by_grammar(
                ds.skip(k as int),
                choices@,
                n as nat,
            ),
        decreases distractors.len() - k,
    {
        assert(ds.skip(k as int)[0] == ds[k as int]);
        assert(ds.skip(k as int).drop_first() =~= ds.skip(k + 1));
        let d = &distractors[k];
        let g = d.grammar_label_ru();
        if !chosen_has_grammar(&choices, &g) {
            choices.push(d.duplicate());
        }
        k = k + 1;
    }
    if k == distractors.len() {
        assert(ds.skip(k as int).len() == 0);
    }
    choices
}

/// Pick `n` forms (the asked one and up to `n - 1` distractors) for a
/// multiple choice between grammatical descriptions, all from the lemma of
/// the asked form, with distinct descriptions.
pub fn build_same_lemma_grammar_choices(forms: &[Form], correct: &Form, n: usize) -> (r: Vec<Form>)
    ensures
        r@ == same_lemma_grammar_choices(forms@, *correct, n as nat),
{
    let others = collect_other_grammar(forms, correct);
    let distractors = sort_forms(&others, Some(correct.id));
    let choices = pick_grammar_options(&distractors, correct, n);
    sort_forms(&choices, None)
}

// ── Properties of the options ──────────────────────────────────────────────

/// The text that options must not repeat: the description or the Greek form.
pub open spec fn option_text(f: Form, by_grammar: bool) -> Seq<char> {
    if by_grammar {
        grammar_text(f)
    } else {
        f.greek_form@
    }
}

/// No two forms of `s` share their option text.
pub open spec fn distinct_texts(s: Seq<Form>, by_grammar: bool) -> bool {
    forall|i: int, j: int|
        0 <= i < j < s.len() ==> option_text(#[trigger] s[i], by_grammar) != option_text(
            #[trigger] s[j],
            by_grammar,
        )
}

/// Some form of `s` has the option text `t`.
pub open spec fn has_text_of(s: Seq<Form>, t: Seq<char>, by_grammar: bool) -> bool {
    exists|i: int| 0 <= i < s.len() && option_text(#[trigger] s[i], by_grammar) == t
}

/// Inserting by key puts `x` at some position between the elements.
pub proof fn lemma_insert_shape(s: Seq<Form>, x: Form, salt: Option<i64>) -> (p: int)
    ensures
        0 <= p <= s.len(),
        insert_by_key(s, x, salt) == s.take(p) + seq![x] + s.skip(p),
    decreases s.len(),
{
    if s.len() == 0 {
        assert(insert_by_key(s, x, salt) =~= s.take(0) + seq![x] + s.skip(0));
        0
    } else if order_key(s.last(), salt) > order_key(x, salt) {
        let q = lemma_insert_shape(s.drop_last(), x, salt);
        let d = s.drop_last();
        assert(insert_by_key(s, x, salt) =~= s.take(q) + seq![x] + s.skip(q)) by {
            assert(s.take(q) =~= d.take(q));
            assert(s.skip(q) =~= d.skip(q).push(s.last()));
        }
        q
    } else {
        assert(insert_by_key(s, x, salt) =~= s.take(s.len() as int) + seq![x] + s.skip(
            s.len() as int,
        ));
        s.len() as int
    }
}

/// Sorting by key keeps the length and the elements.
pub proof fn lemma_sort_elements(s: Seq<Form>, salt: Option<i64>)
    ensures
        sort_by_key(s, salt).len() == s.len(),
        forall|y: Form| #[trigger] sort_by_key(s, salt).contains(y) <==> s.contains(y),
    decreases s.len(),
{
    if s.len() > 0 {
        let d = s.drop_last();
        lemma_sort_elements(d, salt);
        let t = sort_by_key(d, salt);
        let p = lemma_insert_shape(t, s.last(), salt);
        let r = sort_by_key(s, salt);
        assert(s =~= d.push(s.last()));
        assert forall|y: Form| #[trigger] r.contains(y) <==> s.contains(y) by {
            if r.contains(y) {
                let k = choose|k: int| 0 <= k < r.len() && r[k] == y;
                if k < p {
                    assert(t.contains(t[k]));
                } else if k > p {
                    assert(r[k] == t[k - 1]);
                    assert(t.contains(t[k - 1]));
                }
                if y != s.last() {
                    assert(d.contains(y));
                    let m = choose|m: int| 0 <= m < d.len() && d[m] == y;
                    assert(s[m] == y);
                }
            }
            if s.contains(y) {
                let k = choose|k: int| 0 <= k < s.len() && s[k] == y;
                if k < d.len() {
                    assert(d[k] == y);
                    assert(d.contains(y));
                    assert(t.contains(y));
                    let m = choose|m: int| 0 <= m < t.len() && t[m] == y;
                    if m < p {
                        assert(r[m] == y);
                    } else {
                        assert(r[m + 1] == y);
                    }
                } else {
                    assert(r[p] == y);
                }
            }
        }
    }
}

/// Inserting a form whose text is new keeps the texts distinct.
pub proof fn lemma_insert_distinct(s: Seq<Form>, x: Form, salt: Option<i64>, by_grammar: bool)
    requires
        distinct_texts(s, by_grammar),
        !has_text_of(s, option_text(x, by_grammar), by_grammar),
    ensures
        distinct_texts(insert_by_key(s, x, salt), by_grammar),
{
    let p = lemma_insert_shape(s, x, salt);
    let r = insert_by_key(s, x, salt);
    assert forall|i: int, j: int| 0 <= i < j < r.len() implies option_text(
        #[trigger] r[i],
        by_grammar,
    ) != option_text(#[trigger] r[j], by_grammar) by {
        let si = if i < p {
            i
        } else {
            i - 1
        };
        let sj = if j < p {
            j
        } else {
            j - 1
        };
        if i == p {
            assert(r[j] == s[sj]);
        } else if j == p {
            assert(r[i] == s[si]);
        } else {
            assert(r[i] == s[si]);
            assert(r[j] == s[sj]);
        }
    }
}

/// Sorting by key keeps the texts distinct.
pub proof fn lemma_sort_distinct(s: Seq<Form>, salt: Option<i64>, by_grammar: bool)
    requires
        distinct_texts(s, by_grammar),
    ensures
        distinct_texts(sort_by_key(s, salt), by_grammar),
    decreases s.len(),
{
    if s.len() > 0 {
        let d = s.drop_last();
        assert(distinct_texts(d, by_grammar)) by {
            assert forall|i: int, j: int| 0 <= i < j < d.len() implies option_text(
                #[trigger] d[i],
                by_grammar,
            ) != option_text(#[trigger] d[j], by_grammar) by {
                assert(d[i] == s[i] && d[j] == s[j]);
            }
        }
        lemma_sort_distinct(d, salt, by_grammar);
        lemma_sort_elements(d, salt);
        let t = sort_by_key(d, salt);
        let x = s.last();
        assert(!has_text_of(t, option_text(x, by_grammar), by_grammar)) by {
            if has_text_of(t, option_text(x, by_grammar), by_grammar) {
                let k = choose|k: int|
                    0 <= k < t.len() && option_text(#[trigger] t[k], by_grammar) == option_text(
                        x,
                        by_grammar,
                    );
                assert(t.contains(t[k]));
                assert(d.contains(t[k]));
                let m = choose|m: int| 0 <= m < d.len() && d[m] == t[k];
                assert(s[m] == d[m]);
                assert(option_text(s[m], by_grammar) != option_text(s[s.len() - 1], by_grammar));
            }
        }
        lemma_insert_distinct(t, x, salt, by_grammar);
    }
}

/// Picking by Greek text keeps the chosen options first, adds only
/// distractors, keeps texts distinct and stops at `n` options.
pub proof fn lemma_pick_by_text(ds: Seq<Form>, chosen: Seq<Form>, n: nat)
    requires
        distinct_texts(chosen, false),
    ensures
        distinct_texts(pick_by_text(ds, chosen, n), false),
        pick_by_text(ds, chosen, n).take(chosen.len() as int) == chosen,
        pick_by_text(ds, chosen, n).len() >= chosen.len(),
        pick_by_text(ds, chosen, n).len() <= if chosen.len() >= n {
            chosen.len()
        } else {
            n
        },
        forall|k: int|
            chosen.len() <= k < pick_by_text(ds, chosen, n).len() ==> ds.contains(
                #[trigger] pick_by_text(ds, chosen, n)[k],
            ),
    decreases ds.len(),
{
    if ds.len() == 0 || chosen.len() >= n {
        assert(chosen.take(chosen.len() as int) =~= chosen);
    } else {
        let rest = ds.drop_first();
        if has_greek(chosen, ds[0].greek_form@) {
            lemma_pick_by_text(rest, chosen, n);
        } else {
            let c2 = chosen.push(ds[0]);
            assert(distinct_texts(c2, false)) by {
                assert forall|i: int, j: int| 0 <= i < j < c2.len() implies option_text(
                    #[trigger] c2[i],
                    false,
                ) != option_text(#[trigger] c2[j], false) by {
                    if j == chosen.len() {
                        assert(c2[i] == chosen[i]);
                    }
                }
            }
            lemma_pick_by_text(rest, c2, n);
            let r = pick_by_text(rest, c2, n);
            assert(r.take(c2.len() as int) == c2);
            assert(r.take(chosen.len() as int) =~= chosen) by {
                assert forall|k: int| 0 <= k < chosen.len() implies r[k] == chosen[k] by {
                    assert(r.take(c2.len() as int)[k] == c2[k]);
                }
            }
            assert(r[chosen.len() as int] == r.take(c2.len() as int)[chosen.len() as int]);
            assert(ds.contains(ds[0]));
        }
        let r = pick_by_text(ds, chosen, n);
        assert forall|k: int| chosen.len() <= k < r.len() implies ds.contains(#[trigger] r[k]) by {
            if has_greek(chosen, ds[0].greek_form@) {
                assert(rest.contains(r[k]));
            } else if k > chosen.len() {
                assert(rest.contains(r[k]));
            }
            if rest.contains(r[k]) {
                let m = choose|m: int| 0 <= m < rest.len() && rest[m] == r[k];
                assert(ds[m + 1] == r[k]);
            }
        }
    }
}

/// Picking by description keeps the chosen options first, adds only
/// distractors, keeps descriptions distinct and stops at `n` options.
pub proof fn lemma_pick_by_grammar(ds: Seq<Form>, chosen: Seq<Form>, n: nat)
    requires
        distinct_texts(chosen, true),
    ensures
        distinct_texts(pick_by_grammar(ds, chosen, n), true),
        pick_by_grammar(ds, chosen, n).take(chosen.len() as int) == chosen,
        pick_by_grammar(ds, chosen, n).len() >= chosen.len(),
        pick_by_grammar(ds, chosen, n).len() <= if chosen.len() >= n {
            chosen.len()
        } else {
            n
        },
        forall|k: int|
            chosen.len() <= k < pick_by_grammar(ds, chosen, n).len() ==> ds.contains(
                #[trigger] pick_by_grammar(ds, chosen, n)[k],
            ),
    decreases ds.len(),
{
    if ds.len() == 0 || chosen.len() >= n {
        assert(chosen.take(chosen.len() as int) =~= chosen);
    } else {
        let rest = ds.drop_first();
        if has_grammar(chosen, grammar_text(ds[0])) {
            lemma_pick_by_grammar(rest, chosen, n);
        } else {
            let c2 = chosen.push(ds[0]);
            assert(distinct_texts(c2, true)) by {
                assert forall|i: int, j: int| 0 <= i < j < c2.len() implies option_text(
                    #[trigger] c2[i],
                    true,
                ) != option_text(#[trigger] c2[j], true) by {
                    if j == chosen.len() {
                        assert(c2[i] == chosen[i]);
                    }
                }
            }
            lemma_pick_by_grammar(rest, c2, n);
            let r = pick_by_grammar(rest, c2, n);
            assert(r.take(c2.len() as int) == c2);
            assert(r.take(chosen.len() as int) =~= chosen) by {
                assert forall|k: int| 0 <= k < chosen.len() implies r[k] == chosen[k] by {
                    assert(r.take(c2.len() as int)[k] == c2[k]);
                }
            }
            assert(r[chosen.len() as int] == r.take(c2.len() as int)[chosen.len() as int]);
            assert(ds.contains(ds[0]));
        }
        let r = pick_by_grammar(ds, chosen, n);
        assert forall|k: int| chosen.len() <= k < r.len() implies ds.contains(#[trigger] r[k]) by {
            if has_grammar(chosen, grammar_text(ds[0])) {
                assert(rest.contains(r[k]));
            } else if k > chosen.len() {
                assert(rest.contains(r[k]));
            }
            if rest.contains(r[k]) {
                let m = choose|m: int| 0 <= m < rest.len() && rest[m] == r[k];
                assert(ds[m + 1] == r[k]);
            }
        }
    }
}

/// Every form kept as a Greek-text distractor belongs to the lemma of the
/// asked form.
pub proof fn lemma_others_same_lemma(forms: Seq<Form>, correct: Form)
    ensures
        forall|f: Form|
            #[trigger] same_lemma_others(forms, correct).contains(f) ==> f.lemma_id
                == correct.lemma_id,
    decreases forms.len(),
{
    if forms.len() > 0 {
        lemma_others_same_lemma(forms.drop_last(), correct);
        let s = same_lemma_others(forms, correct);
        let p = same_lemma_others(forms.drop_last(), correct);
        assert forall|f: Form| s.contains(f) implies f.lemma_id == correct.lemma_id by {
            let k = choose|k: int| 0 <= k < s.len() && s[k] == f;
            if k < p.len() {
                assert(p[k] == f);
                assert(p.contains(f));
            }
        }
    }
}

/// Every form kept as a description distractor belongs to the lemma of the
/// asked form.
pub proof fn lemma_other_grammar_same_lemma(forms: Seq<Form>, correct: Form)
    ensures
        forall|f: Form|
            #[trigger] same_lemma_other_grammar(forms, correct).contains(f) ==> f.lemma_id
                == correct.lemma_id,
    decreases forms.len(),
{
    if forms.len() > 0 {
        lemma_other_grammar_same_lemma(forms.drop_last(), correct);
        let s = same_lemma_other_grammar(forms, correct);
        let p = same_lemma_other_grammar(forms.drop_last(), correct);
        assert forall|f: Form| s.contains(f) implies f.lemma_id == correct.lemma_id by {
            let k = choose|k: int| 0 <= k < s.len() && s[k] == f;
            if k < p.len() {
                assert(p[k] == f);
                assert(p.contains(f));
            }
        }
    }
}

/// The options for a form: the form itself is among them, they all belong
/// to its lemma, no two share a Greek text, and there are at most `n` of
/// them (one when `n` is zero).
pub proof fn lemma_same_lemma_choices(forms: Seq<Form>, correct: Form, n: nat)
    ensures
        same_lemma_choices(forms, correct, n).contains(correct),
        distinct_texts(same_lemma_choices(forms, correct, n), false),
        forall|i: int|
            0 <= i < same_lemma_choices(forms, correct, n).len() ==> (#[trigger] same_lemma_choices(
                forms,
                correct,
                n,
            )[i]).lemma_id == correct.lemma_id,
        same_lemma_choices(forms, correct, n).len() <= if n == 0 {
            1
        } else {
            n
        },
{
    let others = same_lemma_others(forms, correct);
    let ds = sort_by_key(others, Some(correct.id));
    let start = seq![correct];
    lemma_pick_by_text(ds, start, n);
    let picked = pick_by_text(ds, start, n);
    lemma_sort_elements(others, Some(correct.id));
    lemma_sort_elements(picked, None);
    lemma_sort_distinct(picked, None, false);
    lemma_others_same_lemma(forms, correct);
    let r = same_lemma_choices(forms, correct, n);
    assert(picked[0] == picked.take(1)[0]);
    assert(picked.contains(correct));
    assert forall|i: int| 0 <= i < r.len() implies (#[trigger] r[i]).lemma_id
        == correct.lemma_id by {
        assert(r.contains(r[i]));
        assert(picked.contains(r[i]));
        let k = choose|k: int| 0 <= k < picked.len() && picked[k] == r[i];
        if k >= 1 {
            assert(ds.contains(picked[k]));
            assert(others.contains(picked[k]));
        } else {
            assert(picked[0] == correct);
        }
    }
}

/// The description options for a form: the form itself is among them, they
/// all belong to its lemma, no two share a description, and there are at
/// most `n` of them (one when `n` is zero).
pub proof fn lemma_same_lemma_grammar_choices(forms: Seq<Form>, correct: Form, n: nat)
    ensures
        same_lemma_grammar_choices(forms, correct, n).contains(correct),
        distinct_texts(same_lemma_grammar_choices(forms, correct, n), true),
        forall|i: int|
            0 <= i < same_lemma_grammar_choices(forms, correct, n).len() ==> (
            #[trigger] same_lemma_grammar_choices(forms, correct, n)[i]).lemma_id
                == correct.lemma_id,
        same_lemma_grammar_choices(forms, correct, n).len() <= if n == 0 {
            1
        } else {
            n
        },
{
    let others = same_lemma_other_grammar(forms, correct);
    let ds = sort_by_key(others, Some(correct.id));
    let start = seq![correct];
    lemma_pick_by_grammar(ds, start, n);
    let picked = pick_by_grammar(ds, start, n);
    lemma_sort_elements(others, Some(correct.id));
    lemma_sort_elements(picked, None);
    lemma_sort_distinct(picked, None, true);
    lemma_other_grammar_same_lemma(forms, correct);
    let r = same_lemma_grammar_choices(forms, correct, n);
    assert(picked[0] == picked.take(1)[0]);
    assert(picked.contains(correct));
    assert forall|i: int| 0 <= i < r.len() implies (#[trigger] r[i]).lemma_id
        == correct.lemma_id by {
        assert(r.contains(r[i]));
        assert(picked.contains(r[i]));
        let k = choose|k: int| 0 <= k < picked.len() && picked[k] == r[i];
        if k >= 1 {
            assert(ds.contains(picked[k]));
            assert(others.contains(picked[k]));
        } else {
            assert(picked[0] == correct);
        }
    }
}

} // verus!

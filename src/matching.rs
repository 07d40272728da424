//! Fuzzy search over item names, and the order in which matches are listed.
use fuzzy_matcher::skim::SkimMatcherV2;
use fuzzy_matcher::FuzzyMatcher;
use itertools::Itertools;
use std::cmp::Ordering;
use vstd::prelude::*;

use crate::template::texts;

verus! {

/// The character code with ASCII capitals folded to lower case.
pub open spec fn ascii_folded(c: char) -> u32 {
    let x = c as u32;
    if 65 <= x <= 90 {
        (x + 32) as u32
    } else {
        x
    }
}

/// Whether two characters match: exactly, or up to ASCII case.
pub open spec fn chars_match(a: char, b: char, case_sensitive: bool) -> bool {
    if case_sensitive {
        a == b
    } else {
        ascii_folded(a) == ascii_folded(b)
    }
}

/// Whether `pattern` holds an ASCII capital letter.
pub open spec fn has_ascii_upper(pattern: Seq<char>) -> bool {
    exists|i: int| 0 <= i < pattern.len() && 65 <= #[trigger] (pattern[i] as u32) <= 90
}

/// Whether the characters of `pattern` occur in `choice` in order, matched
/// greedily from the left.
pub open spec fn occurs_in_order(choice: Seq<char>, pattern: Seq<char>, case_sensitive: bool) -> bool
    decreases choice.len(),
{
    if pattern.len() == 0 {
        true
    } else if choice.len() == 0 {
        false
    } else if chars_match(choice[0], pattern[0], case_sensitive) {
        occurs_in_order(choice.drop_first(), pattern.drop_first(), case_sensitive)
    } else {
        occurs_in_order(choice.drop_first(), pattern, case_sensitive)
    }
}

/// Whether the fuzzy search accepts `choice` for `pattern`: the empty pattern
/// accepts everything; otherwise the pattern must occur in order, ignoring
/// ASCII case unless the pattern holds a capital letter ("smart case").
pub open spec fn fuzzy_accepts(choice: Seq<char>, pattern: Seq<char>) -> bool {
    pattern.len() == 0 || occurs_in_order(choice, pattern, has_ascii_upper(pattern))
}

/// Score and matched character positions that the fuzzy search gives
/// `choice` for `pattern`, when it accepts it.
pub uninterp spec fn skim_match(choice: Seq<char>, pattern: Seq<char>) -> (i64, Seq<usize>);

/// A fuzzy match as a value: its score and matched positions.
pub open spec fn match_view(m: (i64, Vec<usize>)) -> (i64, Seq<usize>) {
    (m.0, m.1@)
}

/// The lower-case form of a text.
pub uninterp spec fn lower_of(s: Seq<char>) -> Seq<char>;

/// Relies on fuzzy_matcher's `SkimMatcherV2::fuzzy_indices` with default
/// settings (smart case, no element limit): it answers at once with score 0
/// and no positions for an empty pattern, returns `None` exactly when the
/// greedy in-order scan fails, and otherwise a score and positions that
/// depend on the two texts alone.
#[verifier::external_body]
pub(crate) fn fuzzy_indices(choice: &str, pattern: &str) -> (r: Option<(i64, Vec<usize>)>)
    ensures
        r is Some <==> fuzzy_accepts(choice@, pattern@),
        r is Some ==> skim_match(choice@, pattern@) == match_view(r->0),
        pattern@.len() == 0 ==> r is Some && match_view(r->0) == (0i64, Seq::<usize>::empty()),
{
    SkimMatcherV2::default().fuzzy_indices(choice, pattern)
}

/// Relies on `str::to_lowercase`: the result depends on the characters alone.
#[verifier::external_body]
pub(crate) fn lowercase(s: &str) -> (r: String)
    ensures
        r@ == lower_of(s@),
{
    s.to_lowercase()
}

/// Relies on itertools' `sorted_by`, a stable sort by the comparator
/// (`slice::sort_by`); `rank_order` is a total order, so what comes out is
/// the same entries, ordered by it.
#[verifier::external_body]
fn sort_ranked(keys: &Vec<String>, entries: Vec<(i64, usize)>) -> (r: Vec<(i64, usize)>)
    ensures
        r@.to_multiset() == entries@.to_multiset(),
        forall|i: int, j: int| 0 <= i < j < r@.len() ==> !rank_before(texts(keys@), r@[j], r@[i]),
{
    entries.into_iter().sorted_by(|a, b| rank_order(keys, a, b)).collect()
}

/// Lexicographic order of texts, character by character.
pub open spec fn text_less(a: Seq<char>, b: Seq<char>) -> bool
    decreases a.len(),
{
    if a.len() == 0 {
        b.len() > 0
    } else if b.len() == 0 {
        false
    } else if a[0] != b[0] {
        a[0] < b[0]
    } else {
        text_less(a.drop_first(), b.drop_first())
    }
}

/// The sort key of item `i`: its lower-cased name.
pub open spec fn key_of(keys: Seq<Seq<char>>, i: usize) -> Seq<char> {
    if i < keys.len() {
        keys[i as int]
    } else {
        Seq::empty()
    }
}

/// Whether the match `a` (score, item) is listed before `b`: higher score
/// first, then by lower-cased name, then by position in the folder.
pub open spec fn rank_before(keys: Seq<Seq<char>>, a: (i64, usize), b: (i64, usize)) -> bool {
    ||| a.0 > b.0
    ||| a.0 == b.0 && text_less(key_of(keys, a.1), key_of(keys, b.1))
    ||| a.0 == b.0 && key_of(keys, a.1) == key_of(keys, b.1) && a.1 < b.1
}

proof fn lemma_text_less_irreflexive(a: Seq<char>)
    ensures
        !text_less(a, a),
    decreases a.len(),
{
    if a.len() > 0 {
        lemma_text_less_irreflexive(a.drop_first());
    }
}

proof fn lemma_text_less_total(a: Seq<char>, b: Seq<char>)
    ensures
        a == b || text_less(a, b) || text_less(b, a),
        !(text_less(a, b) && text_less(b, a)),
        !text_less(a, a),
    decreases a.len(),
{
    lemma_text_less_irreflexive(a);
    if a.len() == 0 || b.len() == 0 {
        if a.len() == 0 && b.len() == 0 {
            assert(a =~= b);
        }
    } else if a[0] != b[0] {
    } else {
        lemma_text_less_total(a.drop_first(), b.drop_first());
        if a.drop_first() == b.drop_first() {
            assert forall|i: int| 0 <= i < a.len() implies a[i] == b[i] by {
                if i > 0 {
                    assert(a[i] == a.drop_first()[i - 1]);
                    assert(b[i] == b.drop_first()[i - 1]);
                }
            }
            assert(a =~= b);
        }
    }
}

/// Ranking is a strict total order on matches of different items.
pub proof fn lemma_rank_total(keys: Seq<Seq<char>>, a: (i64, usize), b: (i64, usize))
    ensures
        a.1 != b.1 ==> rank_before(keys, a, b) || rank_before(keys, b, a),
        !(rank_before(keys, a, b) && rank_before(keys, b, a)),
{
    lemma_text_less_total(key_of(keys, a.1), key_of(keys, b.1));
}

/// Lexicographic comparison of two texts by character code.
pub fn compare_text(a: &str, b: &str) -> (r: Ordering)
    ensures
        (r is Less) == text_less(a@, b@),
        (r is Greater) == text_less(b@, a@),
        (r is Equal) == (a@ == b@),
{
    let n = a.unicode_len();
    let m = b.unicode_len();
    let mut i: usize = 0;
    proof {
        lemma_text_less_total(a@, b@);
    }
    assert(a@.skip(0) =~= a@);
    assert(b@.skip(0) =~= b@);
    while i < n && i < m
        invariant
            n == a@.len(),
            m == b@.len(),
            i <= n,
            i <= m,
            a@.take(i as int) == b@.take(i as int),
            text_less(a@, b@) == text_less(a@.skip(i as int), b@.skip(i as int)),
            text_less(b@, a@) == text_less(b@.skip(i as int), a@.skip(i as int)),
        decreases n - i,
    {
        let x = a.get_char(i);
        let y = b.get_char(i);
        proof {
            assert(a@.skip(i as int)[0] == x);
            assert(b@.skip(i as int)[0] == y);
            assert(a@.skip(i as int).drop_first() =~= a@.skip(i + 1));
            assert(b@.skip(i as int).drop_first() =~= b@.skip(i + 1));
        }
        if x != y {
            proof {
                assert(a@[i as int] != b@[i as int]);
            }
            if x < y {
                return Ordering::Less;
            } else {
                return Ordering::Greater;
            }
        }
        assert(a@.take(i + 1) =~= a@.take(i as int).push(x));
        assert(b@.take(i + 1) =~= b@.take(i as int).push(y));
        i = i + 1;
    }
    if n == m {
        assert(a@ =~= a@.take(i as int));
        assert(b@ =~= b@.take(i as int));
        Ordering::Equal
    } else if i == n {
        assert(a@.skip(i as int).len() == 0);
        proof {
            if a@ == b@ {
                assert(false);
            }
        }
        Ordering::Less
    } else {
        assert(b@.skip(i as int).len() == 0);
        proof {
            if a@ == b@ {
                assert(false);
            }
        }
        Ordering::Greater
    }
}

/// Compares two matches by `rank_before`; items without a key compare as if
/// their name were empty.
pub fn rank_order(keys: &Vec<String>, a: &(i64, usize), b: &(i64, usize)) -> (r: Ordering)
    ensures
        (r is Less) == rank_before(texts(keys@), *a, *b),
        (r is Greater) == rank_before(texts(keys@), *b, *a),
{
    proof {
        lemma_rank_total(texts(keys@), *a, *b);
        lemma_text_less_total(key_of(texts(keys@), a.1), key_of(texts(keys@), b.1));
    }
    if a.0 > b.0 {
        return Ordering::Less;
    }
    if a.0 < b.0 {
        return Ordering::Greater;
    }
    let empty = String::new();
    let ka = if a.1 < keys.len() { &keys[a.1] } else { &empty };
    let kb = if b.1 < keys.len() { &keys[b.1] } else { &empty };
    match compare_text(ka.as_str(), kb.as_str()) {
        Ordering::Less => Ordering::Less,
        Ordering::Greater => Ordering::Greater,
        Ordering::Equal => {
            if a.1 < b.1 {
                Ordering::Less
            } else if a.1 > b.1 {
                Ordering::Greater
            } else {
                Ordering::Equal
            }
        },
    }
}


/// The match entry of item `k`: its score and its position.
pub open spec fn entry(scores: Seq<Option<i64>>, k: usize) -> (i64, usize) {
    (scores[k as int]->0, k)
}

/// `order` lists each accepted item (one with a score) exactly once, and
/// nothing else, best ranked first.
pub open spec fn is_ranking(order: Seq<usize>, scores: Seq<Option<i64>>, keys: Seq<Seq<char>>) -> bool {
    &&& order.no_duplicates()
    &&& forall|k: usize| order.contains(k) <==> (k < scores.len() && scores[k as int] is Some)
    &&& forall|i: int, j: int|
        0 <= i < j < order.len() ==> rank_before(keys, entry(scores, order[i]), entry(scores, order[j]))
}

/// The accepted items in listing order: `scores[k]` is the fuzzy score of
/// item `k` (`None` when the search rejects it) and `keys[k]` its
/// lower-cased name. Higher scores come first, ties go by name, then by
/// position.
pub fn rank_matches(scores: &Vec<Option<i64>>, keys: &Vec<String>) -> (r: Vec<usize>)
    ensures
        is_ranking(r@, scores@, texts(keys@)),
{
    let ghost sc = scores@;
    let n = scores.len();
    let mut entries: Vec<(i64, usize)> = Vec::new();
    let mut k: usize = 0;
    while k < n
        invariant
            k <= n == sc.len(),
            sc == scores@,
            forall|i: int| 0 <= i < entries@.len() ==> (#[trigger] entries@[i]).1 < k,
            forall|i: int| 0 <= i < entries@.len() ==> sc[(#[trigger] entries@[i]).1 as int] == Some(entries@[i].0),
            forall|i: int, j: int| 0 <= i < j < entries@.len() ==> entries@[i].1 < entries@[j].1,
            forall|kk: usize| kk < k && sc[kk as int] is Some ==> entries@.contains(#[trigger] entry(sc, kk)),
        decreases n - k,
    {
        match scores[k] {
            Some(score) => {
                let ghost before = entries@;
                entries.push((score, k));
                proof {
                    assert(entries@[before.len() as int] == entry(sc, k));
                    assert forall|i: int| 0 <= i < entries@.len() implies (#[trigger] entries@[i]).1 < k + 1 && sc[entries@[i].1 as int] == Some(entries@[i].0) by {
                        if i < before.len() {
                            assert(entries@[i] == before[i]);
                            assert(sc[before[i].1 as int] == Some(before[i].0));
                        }
                    }
                    assert forall|i: int, j: int| 0 <= i < j < entries@.len() implies entries@[i].1 < entries@[j].1 by {
                        assert(entries@[i] == before[i]);
                        assert(sc[before[i].1 as int] == Some(before[i].0));
                        if j < before.len() {
                            assert(entries@[j] == before[j]);
                        }
                    }
                    assert forall|kk: usize| kk < k + 1 && sc[kk as int] is Some implies entries@.contains(#[trigger] entry(sc, kk)) by {
                        if kk < k {
                            let i = choose|i: int| 0 <= i < before.len() && before[i] == entry(sc, kk);
                            assert(entries@[i] == entry(sc, kk));
                        }
                    }
                }
            },
            None => {},
        }
        k = k + 1;
    }
    let ghost es = entries@;
    proof {
        assert(es.no_duplicates());
        es.lemma_multiset_has_no_duplicates();
    }
    let sorted = sort_ranked(keys, entries);
    let ghost ss = sorted@;
    proof {
        es.to_multiset_ensures();
        ss.to_multiset_ensures();
        ss.lemma_multiset_has_no_duplicates_conv();
    }
    let mut order: Vec<usize> = Vec::new();
    let mut i: usize = 0;
    while i < sorted.len()
        invariant
            i <= ss.len(),
            ss == sorted@,
            order@.len() == i,
            forall|j: int| 0 <= j < i ==> order@[j] == ss[j].1,
        decreases ss.len() - i,
    {
        order.push(sorted[i].1);
        i = i + 1;
    }
    proof {
        let keys_v = texts(keys@);
        assert forall|j: int| 0 <= j < ss.len() implies #[trigger] ss[j] == entry(sc, ss[j].1) && ss[j].1 < n by {
            assert(ss.contains(ss[j]));
            assert(ss.to_multiset().count(ss[j]) > 0);
            assert(es.to_multiset().count(ss[j]) > 0);
            assert(es.contains(ss[j]));
            let t = choose|t: int| 0 <= t < es.len() && es[t] == ss[j];
            assert(sc[es[t].1 as int] == Some(es[t].0));
        }
        assert(ss.no_duplicates());
        assert forall|a: int, b: int| 0 <= a < b < order@.len() implies order@[a] != order@[b] by {
            assert(ss[a] == entry(sc, ss[a].1));
            assert(ss[b] == entry(sc, ss[b].1));
            assert(ss[a] != ss[b]);
        }
        assert forall|kk: usize| order@.contains(kk) <==> (kk < sc.len() && sc[kk as int] is Some) by {
            if order@.contains(kk) {
                let j = choose|j: int| 0 <= j < order@.len() && order@[j] == kk;
                assert(ss[j] == entry(sc, ss[j].1));
            }
            if kk < sc.len() && sc[kk as int] is Some {
                assert(es.contains(entry(sc, kk)));
                assert(es.to_multiset().count(entry(sc, kk)) > 0);
                assert(ss.to_multiset().count(entry(sc, kk)) > 0);
                assert(ss.contains(entry(sc, kk)));
                let j = choose|j: int| 0 <= j < ss.len() && ss[j] == entry(sc, kk);
                assert(order@[j] == kk);
            }
        }
        assert forall|a: int, b: int| 0 <= a < b < order@.len() implies rank_before(keys_v, entry(sc, order@[a]), entry(sc, order@[b])) by {
            assert(ss[a] == entry(sc, ss[a].1));
            assert(ss[b] == entry(sc, ss[b].1));
            lemma_rank_total(keys_v, ss[a], ss[b]);
        }
    }
    order
}

proof fn lemma_occurs_without_last(ch: Seq<char>, p: Seq<char>, x: char, cs: bool)
    requires
        occurs_in_order(ch, p.push(x), cs),
    ensures
        occurs_in_order(ch, p, cs),
    decreases ch.len(),
{
    if p.len() > 0 && ch.len() > 0 {
        if chars_match(ch[0], p[0], cs) {
            assert(p.push(x).drop_first() =~= p.drop_first().push(x));
            lemma_occurs_without_last(ch.drop_first(), p.drop_first(), x, cs);
        } else {
            lemma_occurs_without_last(ch.drop_first(), p, x, cs);
        }
    }
}

proof fn lemma_occurs_without_first(ch: Seq<char>, p: Seq<char>, cs: bool)
    requires
        occurs_in_order(ch, p, cs),
        p.len() > 0,
    ensures
        occurs_in_order(ch, p.drop_first(), cs),
    decreases ch.len(),
{
    let q = p.drop_first();
    if ch.len() > 0 && q.len() > 0 {
        if chars_match(ch[0], p[0], cs) {
            if chars_match(ch[0], q[0], cs) {
                lemma_occurs_without_first(ch.drop_first(), q, cs);
            }
        } else {
            lemma_occurs_without_first(ch.drop_first(), p, cs);
            if chars_match(ch[0], q[0], cs) {
                lemma_occurs_without_first(ch.drop_first(), q, cs);
            }
        }
    }
}

proof fn lemma_occurs_ignoring_case(ch: Seq<char>, p: Seq<char>)
    requires
        occurs_in_order(ch, p, true),
    ensures
        occurs_in_order(ch, p, false),
    decreases ch.len(),
{
    if p.len() > 0 && ch.len() > 0 {
        if ch[0] == p[0] {
            lemma_occurs_ignoring_case(ch.drop_first(), p.drop_first());
        } else {
            lemma_occurs_ignoring_case(ch.drop_first(), p);
            if chars_match(ch[0], p[0], false) {
                lemma_occurs_without_first(ch.drop_first(), p, false);
            }
        }
    }
}

/// Narrowing: what the search accepts for a longer pattern it also accepts
/// for the pattern without its last character.
pub proof fn lemma_accepts_shorter(choice: Seq<char>, pattern: Seq<char>, c: char)
    requires
        fuzzy_accepts(choice, pattern.push(c)),
    ensures
        fuzzy_accepts(choice, pattern),
{
    if pattern.len() > 0 {
        let longer = pattern.push(c);
        let cs = has_ascii_upper(longer);
        assert(longer.len() > 0);
        lemma_occurs_without_last(choice, pattern, c, cs);
        if has_ascii_upper(pattern) {
            let i = choose|i: int| 0 <= i < pattern.len() && 65 <= #[trigger] (pattern[i] as u32) <= 90;
            assert(longer[i] == pattern[i]);
            assert(cs);
        } else if cs {
            lemma_occurs_ignoring_case(choice, pattern);
        }
    }
}

} // verus!

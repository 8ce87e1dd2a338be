//! Fuzzy search ranking: which entries a query keeps and in which order the
//! picker lists them (best score first, ties in the order given).

use vstd::prelude::*;
use fuzzy_matcher::FuzzyMatcher;
use fuzzy_matcher::skim::SkimMatcherV2;

verus! {

/// The score that fuzzy-matcher's default `SkimMatcherV2` gives `choice`
/// for `pattern`.
pub uninterp spec fn skim_score(choice: Seq<char>, pattern: Seq<char>) -> Option<i64>;

/// ASCII capital letter.
pub open spec fn is_ascii_upper(c: char) -> bool {
    65 <= (c as u32) <= 90
}

/// The code of `c` with ASCII capitals folded to lower case.
pub open spec fn ascii_folded(c: char) -> int {
    if is_ascii_upper(c) {
        c as u32 + 32
    } else {
        c as u32 as int
    }
}

/// Does the pattern hold an ASCII capital (smart case turns case-sensitive)?
pub open spec fn has_ascii_upper(p: Seq<char>) -> bool {
    exists|i: int| 0 <= i < p.len() && is_ascii_upper(#[trigger] p[i])
}

/// Character comparison of the matcher.
pub open spec fn same_char(a: char, b: char, case_sensitive: bool) -> bool {
    if case_sensitive {
        a == b
    } else {
        ascii_folded(a) == ascii_folded(b)
    }
}

/// Greedy left-to-right search for the pattern's characters in `choice`.
pub open spec fn greedy_subsequence(choice: Seq<char>, pattern: Seq<char>, case_sensitive: bool) -> bool
    decreases choice.len(),
{
    if pattern.len() == 0 {
        true
    } else if choice.len() == 0 {
        false
    } else if same_char(choice[0], pattern[0], case_sensitive) {
        greedy_subsequence(choice.drop_first(), pattern.drop_first(), case_sensitive)
    } else {
        greedy_subsequence(choice.drop_first(), pattern, case_sensitive)
    }
}

/// Does `choice` match `pattern` at all (smart case)?
pub open spec fn fuzzy_matches(choice: Seq<char>, pattern: Seq<char>) -> bool {
    greedy_subsequence(choice, pattern, has_ascii_upper(pattern))
}

/// Scores `choice` against `pattern` with `SkimMatcherV2::default()` of
/// fuzzy-matcher and its `FuzzyMatcher::fuzzy_match`. Claimed of that code:
/// the result depends on the two strings alone (named `skim_score`); it is
/// `Some` exactly when the pattern's characters occur in order in `choice`
/// (compared exactly when the pattern holds an ASCII capital, ignoring ASCII
/// case otherwise); an empty pattern scores `Some(0)`. Which number a match
/// scores is left unsaid.
#[verifier::external_body]
fn skim_fuzzy_score(choice: &str, pattern: &str) -> (r: Option<i64>)
    ensures
        r == skim_score(choice@, pattern@),
        r is Some <==> fuzzy_matches(choice@, pattern@),
        pattern@.len() == 0 ==> r == Some(0i64),
{
    SkimMatcherV2::default().fuzzy_match(choice, pattern)
}

/// First index at or after `j` whose score is below `s` (or the length).
pub open spec fn insert_pos_from<T>(t: Seq<(i64, T)>, s: i64, j: int) -> int
    decreases t.len() - j,
{
    if j < 0 || j >= t.len() {
        t.len() as int
    } else if t[j].0 < s {
        j
    } else {
        insert_pos_from(t, s, j + 1)
    }
}

/// Inserts `x` behind every entry that scores at least as much.
pub open spec fn insert_by_score<T>(t: Seq<(i64, T)>, x: (i64, T)) -> Seq<(i64, T)> {
    t.insert(insert_pos_from(t, x.0, 0), x)
}

/// The stable ordering by descending score (what `sort_by(|a, b| b.0.cmp(&a.0))` yields).
pub open spec fn stable_by_score<T>(s: Seq<(i64, T)>) -> Seq<(i64, T)>
    decreases s.len(),
{
    if s.len() == 0 {
        s
    } else {
        insert_by_score(stable_by_score(s.drop_last()), s.last())
    }
}

/// The entries that have a score, with it.
pub open spec fn kept<T>(s: Seq<(Option<i64>, T)>) -> Seq<(i64, T)>
    decreases s.len(),
{
    if s.len() == 0 {
        Seq::empty()
    } else {
        let r = kept(s.drop_last());
        match s.last().0 {
            Some(v) => r.push((v, s.last().1)),
            None => r,
        }
    }
}

/// The entries that have a score.
pub open spec fn has_score<T>() -> spec_fn((Option<i64>, T)) -> bool {
    |p: (Option<i64>, T)| p.0 is Some
}

/// An entry with its score as an optional score again.
pub open spec fn as_scored<T>() -> spec_fn((i64, T)) -> (Option<i64>, T) {
    |p: (i64, T)| (Some(p.0), p.1)
}

/// The order works on each entry's own score, unchanged: the entries it
/// ranks are exactly the scored entries of the input, in input order, each
/// with the score it came with.
pub proof fn lemma_kept_keeps_scores<T>(s: Seq<(Option<i64>, T)>)
    ensures
        kept(s).map_values(as_scored::<T>()) == s.filter(has_score::<T>()),
    decreases s.len(),
{
    reveal(Seq::filter);
    if s.len() > 0 {
        lemma_kept_keeps_scores(s.drop_last());
        let r = kept(s.drop_last());
        match s.last().0 {
            Some(v) => {
                assert(r.push((v, s.last().1)).map_values(as_scored::<T>()) =~= r.map_values(
                    as_scored::<T>(),
                ).push(s.last()));
            },
            None => {},
        }
    } else {
        assert(kept(s).map_values(as_scored::<T>()) =~= s.filter(has_score::<T>()));
    }
}

proof fn lemma_stable_map_multiset<T, U>(s: Seq<(i64, T)>, f: spec_fn((i64, T)) -> U)
    ensures
        stable_by_score(s).map_values(f).to_multiset() =~= s.map_values(f).to_multiset(),
    decreases s.len(),
{
    broadcast use vstd::seq_lib::group_seq_properties;
    if s.len() > 0 {
        let t = stable_by_score(s.drop_last());
        let x = s.last();
        lemma_stable_map_multiset(s.drop_last(), f);
        lemma_ranked_is_sorted(s.drop_last());
        lemma_insert_pos(t, x.0, 0);
        let p = insert_pos_from(t, x.0, 0);
        assert(t.insert(p, x).map_values(f) =~= t.map_values(f).insert(p, f(x)));
        lemma_insert_multiset(t.map_values(f), p, f(x));
        assert(s.drop_last().map_values(f).push(f(x)) =~= s.map_values(f));
    }
}

/// The ranked list holds exactly the input's scored entries, each with its
/// own score: nothing is added, dropped or rescored.
pub proof fn lemma_ranked_entries_are_input<T>(s: Seq<(Option<i64>, T)>)
    ensures
        stable_by_score(kept(s)).map_values(as_scored::<T>()).to_multiset() == s.filter(
            has_score::<T>(),
        ).to_multiset(),
{
    lemma_stable_map_multiset(kept(s), as_scored::<T>());
    lemma_kept_keeps_scores(s);
}

/// Of two scored entries, the one with the higher score is listed first:
/// in the order, every entry that scores `a` comes before every entry that
/// scores less.
pub proof fn lemma_higher_score_first<T>(s: Seq<(Option<i64>, T)>, i: int, j: int)
    requires
        0 <= i < stable_by_score(kept(s)).len(),
        0 <= j < stable_by_score(kept(s)).len(),
        stable_by_score(kept(s))[i].0 > stable_by_score(kept(s))[j].0,
    ensures
        i < j,
{
    lemma_ranked_is_sorted(kept(s));
    if j <= i {
        if j < i {
            assert(stable_by_score(kept(s))[j].0 >= stable_by_score(kept(s))[i].0);
        }
    }
}

/// The entries without their scores.
pub open spec fn labels<T>(s: Seq<(i64, T)>) -> Seq<T> {
    s.map_values(|p: (i64, T)| p.1)
}

/// Scores never increase along `s`.
pub open spec fn sorted_by_score<T>(s: Seq<(i64, T)>) -> bool {
    forall|i: int, j: int| 0 <= i < j < s.len() ==> #[trigger] s[i].0 >= #[trigger] s[j].0
}

/// The entries of `s` that score exactly `v`, in order.
pub open spec fn with_score<T>(s: Seq<(i64, T)>, v: i64) -> Seq<(i64, T)> {
    s.filter(score_is(v))
}

/// The test "scores exactly `v`".
pub open spec fn score_is<T>(v: i64) -> spec_fn((i64, T)) -> bool {
    |p: (i64, T)| p.0 == v
}

/// Each item paired with its score for `pattern`.
pub open spec fn scored_items(items: Seq<String>, pattern: Seq<char>) -> Seq<(Option<i64>, String)> {
    items.map_values(|it: String| (skim_score(it@, pattern), it))
}

/// What the picker lists for `pattern`.
pub open spec fn ranked(items: Seq<String>, pattern: Seq<char>) -> Seq<String> {
    labels(stable_by_score(kept(scored_items(items, pattern))))
}

proof fn lemma_insert_pos<T>(t: Seq<(i64, T)>, s: i64, j: int)
    requires
        0 <= j <= t.len(),
    ensures
        j <= insert_pos_from(t, s, j) <= t.len(),
        forall|k: int| j <= k < insert_pos_from(t, s, j) ==> #[trigger] t[k].0 >= s,
        insert_pos_from(t, s, j) < t.len() ==> t[insert_pos_from(t, s, j)].0 < s,
    decreases t.len() - j,
{
    if j < t.len() && t[j].0 >= s {
        lemma_insert_pos(t, s, j + 1);
    }
}

/// The picker's order never lists a lower score before a higher one.
pub proof fn lemma_ranked_is_sorted<T>(s: Seq<(i64, T)>)
    ensures
        sorted_by_score(stable_by_score(s)),
        stable_by_score(s).len() == s.len(),
    decreases s.len(),
{
    if s.len() > 0 {
        let t = stable_by_score(s.drop_last());
        let x = s.last();
        lemma_ranked_is_sorted(s.drop_last());
        lemma_insert_pos(t, x.0, 0);
        let p = insert_pos_from(t, x.0, 0);
        let u = t.insert(p, x);
        assert forall|i: int, j: int| 0 <= i < j < u.len() implies #[trigger] u[i].0 >= #[trigger] u[j].0 by {
            if j < p {
            } else if j == p {
            } else if i < p {
            } else if i == p {
                assert(u[j] == t[j - 1]);
                assert(t[p].0 >= t[j - 1].0);
            } else {
                assert(u[j] == t[j - 1]);
                assert(u[i] == t[i - 1]);
            }
        }
    }
}

/// Inserting an element adds it to the multiset of elements.
pub proof fn lemma_insert_multiset<T>(t: Seq<T>, p: int, x: T)
    requires
        0 <= p <= t.len(),
    ensures
        t.insert(p, x).to_multiset() =~= t.to_multiset().insert(x),
{
    broadcast use vstd::seq_lib::group_seq_properties;
    broadcast use vstd::multiset::group_multiset_axioms;
    let u = t.insert(p, x);
    assert(u.remove(p) =~= t);
    assert(u[p] == x);
    assert(u.remove(p).to_multiset() =~= u.to_multiset().remove(x));
    assert(u.to_multiset().count(x) > 0);
}

/// The picker's order is a rearrangement of the scored entries.
pub proof fn lemma_ranked_is_permutation<T>(s: Seq<(i64, T)>)
    ensures
        stable_by_score(s).to_multiset() =~= s.to_multiset(),
        labels(stable_by_score(s)).to_multiset() =~= labels(s).to_multiset(),
    decreases s.len(),
{
    broadcast use vstd::seq_lib::group_seq_properties;
    if s.len() > 0 {
        let t = stable_by_score(s.drop_last());
        let x = s.last();
        lemma_ranked_is_permutation(s.drop_last());
        lemma_ranked_is_sorted(s.drop_last());
        lemma_insert_pos(t, x.0, 0);
        let p = insert_pos_from(t, x.0, 0);
        lemma_insert_multiset(t, p, x);
        assert(s.drop_last().push(x) =~= s);
        assert(labels(t.insert(p, x)) =~= labels(t).insert(p, x.1));
        lemma_insert_multiset(labels(t), p, x.1);
        assert(labels(s.drop_last()).push(x.1) =~= labels(s));
    }
}

/// Entries with equal scores keep their relative order from the input.
pub proof fn lemma_ranked_keeps_ties<T>(s: Seq<(i64, T)>, v: i64)
    ensures
        with_score(stable_by_score(s), v) == with_score(s, v),
    decreases s.len(),
{
    broadcast use vstd::seq_lib::group_seq_properties;
    reveal(Seq::filter);
    let f = score_is::<T>(v);
    if s.len() > 0 {
        let t = stable_by_score(s.drop_last());
        let x = s.last();
        lemma_ranked_keeps_ties(s.drop_last(), v);
        lemma_ranked_is_sorted(s.drop_last());
        lemma_insert_pos(t, x.0, 0);
        let p = insert_pos_from(t, x.0, 0);
        let u = t.insert(p, x);
        assert(u =~= t.take(p) + seq![x] + t.skip(p));
        assert(t =~= t.take(p) + t.skip(p));
        Seq::filter_distributes_over_add(t.take(p) + seq![x], t.skip(p), f);
        Seq::filter_distributes_over_add(t.take(p), seq![x], f);
        Seq::filter_distributes_over_add(t.take(p), t.skip(p), f);
        assert(seq![x].drop_last() =~= Seq::<(i64, T)>::empty());
        if x.0 == v {
            assert forall|k: int| 0 <= k < t.skip(p).len() implies !f(t.skip(p)[k]) by {
                assert(t.skip(p)[k] == t[p + k]);
                assert(t[p].0 >= t[p + k].0);
            }
            assert(t.skip(p).all(|y: (i64, T)| !f(y)));
            t.skip(p).lemma_all_neg_filter_empty(f);
            assert(t.skip(p).filter(f) =~= Seq::<(i64, T)>::empty());
            assert(seq![x].filter(f) =~= seq![x]);
            assert(with_score(s, v) =~= with_score(s.drop_last(), v).push(x));
            assert(with_score(t, v) =~= t.take(p).filter(f));
            assert(with_score(u, v) =~= t.take(p).filter(f) + seq![x]);
            assert(with_score(u, v) =~= with_score(t, v).push(x));
        } else {
            assert(with_score(seq![x], v) =~= Seq::<(i64, T)>::empty());
            assert(with_score(s, v) =~= with_score(s.drop_last(), v));
        }
    }
}

/// When every entry has the same score the order is left as it is.
pub proof fn lemma_ranked_equal_scores<T>(s: Seq<(i64, T)>, v: i64)
    requires
        forall|i: int| 0 <= i < s.len() ==> #[trigger] s[i].0 == v,
    ensures
        stable_by_score(s) == s,
    decreases s.len(),
{
    if s.len() > 0 {
        let t = stable_by_score(s.drop_last());
        lemma_ranked_equal_scores(s.drop_last(), v);
        lemma_insert_pos(t, v, 0);
        assert(t.insert(t.len() as int, s.last()) =~= s);
    }
}

/// Orders the entries that matched by descending score, ties in input order,
/// and drops those that did not match (the picker's list for one query).
pub fn order_by_score(scored: &Vec<(Option<i64>, String)>) -> (out: Vec<String>)
    ensures
        out@ == labels(stable_by_score(kept(scored@))),
{
    let n = scored.len();
    let mut acc: Vec<(i64, String)> = Vec::new();
    let mut i: usize = 0;
    while i < n
        invariant
            n == scored@.len(),
            i <= n,
            acc@ == stable_by_score(kept(scored@.take(i as int))),
        decreases n - i,
    {
        proof {
            assert(scored@.take(i + 1).drop_last() =~= scored@.take(i as int));
        }
        match scored[i].0 {
            Some(v) => {
                let x = (v, scored[i].1.clone());
                let ghost before = acc@;
                let mut j: usize = 0;
                while j < acc.len() && acc[j].0 >= v
                    invariant
                        acc@ == before,
                        j <= acc@.len(),
                        insert_pos_from(before, v, 0) == insert_pos_from(before, v, j as int),
                    decreases acc@.len() - j,
                {
                    j = j + 1;
                }
                acc.insert(j, x);
                proof {
                    let k = kept(scored@.take(i as int));
                    assert(k.push(x).drop_last() =~= k);
                }
            },
            None => {},
        }
        i = i + 1;
    }
    proof {
        assert(scored@.take(n as int) =~= scored@);
    }
    let mut out: Vec<String> = Vec::new();
    let m = acc.len();
    let mut k: usize = 0;
    while k < m
        invariant
            m == acc@.len(),
            k <= m,
            out@ =~= labels(acc@).take(k as int),
        decreases m - k,
    {
        out.push(acc[k].1.clone());
        k = k + 1;
    }
    proof {
        assert(labels(acc@).take(m as int) =~= labels(acc@));
    }
    out
}

proof fn lemma_kept_labels_filter(items: Seq<String>, sc: Seq<(Option<i64>, String)>, pattern: Seq<char>)
    requires
        sc.len() == items.len(),
        forall|k: int| 0 <= k < sc.len() ==> #[trigger] sc[k].1 == items[k],
        forall|k: int| 0 <= k < sc.len() ==> (#[trigger] sc[k].0 is Some <==> fuzzy_matches(items[k]@, pattern)),
    ensures
        labels(kept(sc)) =~= items.filter(|it: String| fuzzy_matches(it@, pattern)),
    decreases sc.len(),
{
    reveal(Seq::filter);
    if sc.len() > 0 {
        lemma_kept_labels_filter(items.drop_last(), sc.drop_last(), pattern);
        let k = kept(sc.drop_last());
        let last = sc.last();
        match last.0 {
            Some(v) => {
                assert(labels(k.push((v, last.1))) =~= labels(k).push(last.1));
            },
            None => {},
        }
    }
}

proof fn lemma_kept_all_zero(items: Seq<String>, sc: Seq<(Option<i64>, String)>)
    requires
        sc.len() == items.len(),
        forall|k: int| 0 <= k < sc.len() ==> #[trigger] sc[k] == (Some(0i64), items[k]),
    ensures
        forall|k: int| 0 <= k < kept(sc).len() ==> #[trigger] kept(sc)[k].0 == 0,
        labels(kept(sc)) =~= items,
    decreases sc.len(),
{
    if sc.len() > 0 {
        lemma_kept_all_zero(items.drop_last(), sc.drop_last());
        let k = kept(sc.drop_last());
        assert(labels(k.push((0i64, sc.last().1))) =~= labels(k).push(sc.last().1));
    }
}

/// The picker's list for the query `pattern` over `items`: the items that
/// match, best score first, ties in the order given.
pub fn rank_matches(items: &Vec<String>, pattern: &str) -> (out: Vec<String>)
    ensures
        out@ == ranked(items@, pattern@),
        out@.to_multiset() == items@.filter(|it: String| fuzzy_matches(it@, pattern@)).to_multiset(),
        pattern@.len() == 0 ==> out@ == items@,
{
    let n = items.len();
    let mut sc: Vec<(Option<i64>, String)> = Vec::new();
    let mut i: usize = 0;
    while i < n
        invariant
            n == items@.len(),
            i <= n,
            sc@ =~= scored_items(items@, pattern@).take(i as int),
            forall|k: int| 0 <= k < i ==> (#[trigger] sc@[k].0 is Some <==> fuzzy_matches(items@[k]@, pattern@)),
            pattern@.len() == 0 ==> forall|k: int| 0 <= k < i ==> #[trigger] sc@[k] == (Some(0i64), items@[k]),
        decreases n - i,
    {
        let s = skim_fuzzy_score(items[i].as_str(), pattern);
        sc.push((s, items[i].clone()));
        i = i + 1;
    }
    proof {
        assert(scored_items(items@, pattern@).take(n as int) =~= scored_items(items@, pattern@));
    }
    let out = order_by_score(&sc);
    proof {
        lemma_kept_labels_filter(items@, sc@, pattern@);
        lemma_ranked_is_permutation(kept(sc@));
        if pattern@.len() == 0 {
            lemma_kept_all_zero(items@, sc@);
            lemma_ranked_equal_scores(kept(sc@), 0);
        }
    }
    out
}

} // verus!

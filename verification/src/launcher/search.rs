//! The launcher's ranking: fuzzy matches of the query, titles first, then
//! by name.
use nucleo_matcher::pattern::{Atom, AtomKind, CaseMatching, Normalization};
use nucleo_matcher::{Config, Matcher, Utf32Str};
use vstd::prelude::*;

use crate::text::{chars_eq, chars_less, chars_of, lowercase, text_less, to_lowercase};

verus! {

broadcast use vstd::string::group_string_axioms;

/// What a title match adds to its score, so that it beats metadata matches.
pub const TITLE_BONUS: u32 = 1000;

/// An item as the ranking sees it.
pub struct Item {
    pub id: String,
    pub title: String,
    pub search_terms: Vec<String>,
}

/// The score nucleo's fuzzy matcher gives `text` for the query, ignoring
/// case and normalizing Unicode; none when the query does not match.
pub uninterp spec fn fuzzy_score(query: Seq<char>, text: Seq<char>) -> Option<u16>;

/// A fuzzy match of `query` against `text` (`nucleo_matcher::pattern::Atom`
/// with `AtomKind::Fuzzy`, `CaseMatching::Ignore`, `Normalization::Smart`,
/// scored by a `Matcher` with the default configuration). Its result is
/// named by `fuzzy_score`; nothing more is claimed of it here.
#[verifier::external_body]
fn score(query: &str, text: &str) -> (r: Option<u16>)
    requires
        text@.len() <= u32::MAX,
    ensures
        r == fuzzy_score(query@, text@),
{
    let pattern = Atom::new(query, CaseMatching::Ignore, Normalization::Smart, AtomKind::Fuzzy, false);
    let mut matcher = Matcher::new(Config::DEFAULT);
    let mut buffer = Vec::new();
    pattern.score(Utf32Str::new(text, &mut buffer), &mut matcher)
}

/// The larger of two optional scores, where a score beats none.
pub open spec fn best(a: Option<int>, b: Option<int>) -> Option<int> {
    match (a, b) {
        (Some(x), Some(y)) => Some(if x >= y {
            x
        } else {
            y
        }),
        (Some(x), None) => Some(x),
        (None, y) => y,
    }
}

pub open spec fn as_int(s: Option<u16>) -> Option<int> {
    match s {
        Some(v) => Some(v as int),
        None => None,
    }
}

/// The best score of the query among the search terms.
pub open spec fn term_score(query: Seq<char>, terms: Seq<String>) -> Option<int>
    decreases terms.len(),
{
    if terms.len() == 0 {
        None
    } else {
        best(term_score(query, terms.drop_last()), as_int(fuzzy_score(query, terms.last()@)))
    }
}

/// An item's score: its title's, raised by `TITLE_BONUS`, or its best
/// search term's, whichever is larger.
pub open spec fn item_score(query: Seq<char>, item: Item) -> Option<int> {
    let title = match fuzzy_score(query, item.title@) {
        Some(s) => Some(s + TITLE_BONUS),
        None => None,
    };
    best(title, term_score(query, item.search_terms@))
}

/// The order of items by name: lowercase title, then id.
pub open spec fn item_less(a: Item, b: Item) -> bool {
    text_less(lowercase(a.title@), lowercase(b.title@)) || (lowercase(a.title@) == lowercase(
        b.title@,
    ) && text_less(a.id@, b.id@))
}

/// An index into the items with its score.
pub type Entry = (usize, int);

/// `x` placed before the first entry of `s` it goes before.
pub open spec fn insert_by(x: Entry, s: Seq<Entry>, before: spec_fn(Entry, Entry) -> bool) -> Seq<
    Entry,
>
    decreases s.len(),
{
    if s.len() == 0 {
        seq![x]
    } else if before(x, s[0]) {
        seq![x] + s
    } else {
        seq![s[0]] + insert_by(x, s.drop_first(), before)
    }
}

/// `s` sorted by `before`, equal entries kept in their order.
pub open spec fn sort_by(s: Seq<Entry>, before: spec_fn(Entry, Entry) -> bool) -> Seq<Entry>
    decreases s.len(),
{
    if s.len() == 0 {
        seq![]
    } else {
        insert_by(s.last(), sort_by(s.drop_last(), before), before)
    }
}

/// Higher scores first, then the order by name.
pub open spec fn ranks_before(items: Seq<Item>) -> spec_fn(Entry, Entry) -> bool {
    |a: Entry, b: Entry|
        a.1 > b.1 || (a.1 == b.1 && item_less(items[a.0 as int], items[b.0 as int]))
}

/// The items that match, with their scores, in item order.
pub open spec fn matches(items: Seq<Item>, query: Seq<char>, n: int) -> Seq<Entry>
    decreases n,
{
    if n <= 0 {
        seq![]
    } else {
        let rest = matches(items, query, n - 1);
        match item_score(query, items[n - 1]) {
            Some(s) => rest.push(((n - 1) as usize, s)),
            None => rest,
        }
    }
}

/// Every item, in order, with no score.
pub open spec fn in_order(n: int) -> Seq<Entry>
    decreases n,
{
    if n <= 0 {
        seq![]
    } else {
        in_order(n - 1).push(((n - 1) as usize, 0))
    }
}

pub open spec fn indexes(s: Seq<Entry>) -> Seq<usize> {
    s.map_values(|e: Entry| e.0)
}

/// Whether an item's title and search terms are short enough to match
/// against: the matcher panics on texts of more than `u32::MAX` characters.
pub open spec fn short_enough(item: Item) -> bool {
    &&& item.title@.len() <= u32::MAX
    &&& forall|j: int|
        0 <= j < item.search_terms@.len() ==> (#[trigger] item.search_terms@[j])@.len() <= u32::MAX
}

pub open spec fn matchable(items: Seq<Item>) -> bool {
    forall|i: int| 0 <= i < items.len() ==> short_enough(#[trigger] items[i])
}

proof fn lemma_insert_by(x: Entry, s: Seq<Entry>, before: spec_fn(Entry, Entry) -> bool, p: int)
    requires
        0 <= p <= s.len(),
        p == s.len() || before(x, s[p]),
        forall|j: int| 0 <= j < p ==> !before(x, #[trigger] s[j]),
    ensures
        insert_by(x, s, before) == s.insert(p, x),
    decreases s.len(),
{
    if s.len() == 0 {
        assert(s.insert(p, x) =~= seq![x]);
    } else if p == 0 {
        assert(s.insert(p, x) =~= seq![x] + s);
    } else {
        let t = s.drop_first();
        assert forall|j: int| 0 <= j < p - 1 implies !before(x, #[trigger] t[j]) by {
            assert(t[j] == s[j + 1]);
        }
        if p < s.len() {
            assert(t[p - 1] == s[p]);
        }
        lemma_insert_by(x, t, before, p - 1);
        assert(s.insert(p, x) =~= seq![s[0]] + t.insert(p - 1, x));
    }
}

fn lowercase_titles(items: &[Item]) -> (r: Vec<Vec<char>>)
    ensures
        r@.len() == items@.len(),
        forall|i: int| 0 <= i < r@.len() ==> (#[trigger] r@[i])@ == lowercase(items@[i].title@),
{
    let mut r: Vec<Vec<char>> = Vec::new();
    let mut i: usize = 0;
    while i < items.len()
        invariant
            i <= items@.len(),
            r@.len() == i,
            forall|j: int| 0 <= j < i ==> (#[trigger] r@[j])@ == lowercase(items@[j].title@),
        decreases items.len() - i,
    {
        let lower = to_lowercase(items[i].title.as_str());
        r.push(chars_of(lower.as_str()));
        i += 1;
    }
    r
}

fn before_by_name(items: &[Item], lower: &Vec<Vec<char>>, a: usize, b: usize) -> (r: bool)
    requires
        a < items@.len(),
        b < items@.len(),
        lower@.len() == items@.len(),
        forall|i: int| 0 <= i < lower@.len() ==> (#[trigger] lower@[i])@ == lowercase(items@[i].title@),
    ensures
        r == item_less(items@[a as int], items@[b as int]),
{
    assert(lower@[a as int]@ == lowercase(items@[a as int].title@));
    assert(lower@[b as int]@ == lowercase(items@[b as int].title@));
    chars_less(&lower[a], &lower[b]) || (chars_eq(&lower[a], &lower[b]) && chars_less(
        &chars_of(items[a].id.as_str()),
        &chars_of(items[b].id.as_str()),
    ))
}

fn item_match(items: &[Item], query: &str, i: usize) -> (r: Option<u64>)
    requires
        i < items@.len(),
        matchable(items@),
    ensures
        match r {
            Some(s) => item_score(query@, items@[i as int]) == Some(s as int),
            None => item_score(query@, items@[i as int]) is None,
        },
{
    let item = &items[i];
    assert(short_enough(items@[i as int]));
    let title: Option<u64> = match score(query, item.title.as_str()) {
        Some(s) => Some(s as u64 + TITLE_BONUS as u64),
        None => None,
    };
    let mut metadata: Option<u64> = None;
    let mut k: usize = 0;
    while k < item.search_terms.len()
        invariant
            k <= item.search_terms@.len(),
            short_enough(*item),
            *item == items@[i as int],
            match metadata {
                Some(m) => term_score(query@, item.search_terms@.take(k as int)) == Some(m as int)
                    && m <= u16::MAX,
                None => term_score(query@, item.search_terms@.take(k as int)) is None,
            },
        decreases item.search_terms.len() - k,
    {
        proof {
            let t = item.search_terms@;
            assert(t.take(k + 1).drop_last() == t.take(k as int));
            assert(t.take(k + 1).last() == t[k as int]);
            assert(item.search_terms@[k as int]@.len() <= u32::MAX);
        }
        match score(query, item.search_terms[k].as_str()) {
            Some(s) => {
                metadata = match metadata {
                    Some(m) => Some(if m >= s as u64 {
                        m
                    } else {
                        s as u64
                    }),
                    None => Some(s as u64),
                };
            },
            None => {},
        }
        k += 1;
    }
    assert(item.search_terms@.take(item.search_terms@.len() as int) == item.search_terms@);
    match (title, metadata) {
        (Some(x), Some(y)) => Some(if x >= y {
            x
        } else {
            y
        }),
        (Some(x), None) => Some(x),
        (None, y) => y,
    }
}

/// The order to list the items in for a query: every item for an empty
/// query (by name when `alphabetical`, else as given), else the matching
/// items, best score first and then by name.
pub open spec fn ranked(items: Seq<Item>, query: Seq<char>, alphabetical: bool) -> Seq<usize> {
    if query.len() == 0 && !alphabetical {
        indexes(in_order(items.len() as int))
    } else if query.len() == 0 {
        indexes(sort_by(in_order(items.len() as int), ranks_before(items)))
    } else {
        indexes(sort_by(matches(items, query, items.len() as int), ranks_before(items)))
    }
}

/// The order to list the items in for a query; see `ranked`.
pub fn rank(items: &[Item], query: &str, alphabetical: bool) -> (r: Vec<usize>)
    requires
        matchable(items@),
    ensures
        r@ == ranked(items@, query@, alphabetical),
{
    let ghost all = items@;
    let empty = query.is_empty();
    // The candidates, in item order.
    let mut candidates: Vec<(usize, u64)> = Vec::new();
    let ghost mut spec_candidates: Seq<Entry> = seq![];
    let mut i: usize = 0;
    while i < items.len()
        invariant
            i <= items@.len(),
            all == items@,
            matchable(items@),
            empty == (query@.len() == 0),
            candidates@.len() == spec_candidates.len(),
            forall|j: int| 0 <= j < candidates@.len() ==> (#[trigger] candidates@[j]).0 < i,
            forall|j: int|
                0 <= j < candidates@.len() ==> (#[trigger] candidates@[j]).0 == spec_candidates[j].0
                    && candidates@[j].1 as int == spec_candidates[j].1,
            spec_candidates == if empty {
                in_order(i as int)
            } else {
                matches(all, query@, i as int)
            },
        decreases items.len() - i,
    {
        if empty {
            candidates.push((i, 0));
            proof {
                spec_candidates = spec_candidates.push((i, 0));
            }
        } else {
            match item_match(items, query, i) {
                Some(s) => {
                    candidates.push((i, s));
                    proof {
                        spec_candidates = spec_candidates.push((i, s as int));
                    }
                },
                None => {},
            }
        }
        i += 1;
    }
    if empty && !alphabetical {
        let mut r: Vec<usize> = Vec::new();
        let mut k: usize = 0;
        while k < candidates.len()
            invariant
                k <= candidates@.len(),
                candidates@.len() == spec_candidates.len(),
                forall|j: int|
                    0 <= j < candidates@.len() ==> (#[trigger] candidates@[j]).0
                        == spec_candidates[j].0,
                r@ == indexes(spec_candidates.take(k as int)),
            decreases candidates.len() - k,
        {
            r.push(candidates[k].0);
            assert(indexes(spec_candidates.take(k + 1)) =~= indexes(
                spec_candidates.take(k as int),
            ).push(spec_candidates[k as int].0));
            k += 1;
        }
        assert(spec_candidates.take(spec_candidates.len() as int) == spec_candidates);
        return r;
    }
    proof {
        assert(entries(candidates@) =~= spec_candidates);
    }
    order_candidates(items, &candidates)
}

/// Candidates with their scores as plain values.
pub open spec fn entries(c: Seq<(usize, u64)>) -> Seq<Entry> {
    c.map_values(|e: (usize, u64)| (e.0, e.1 as int))
}

/// The candidates in ranking order: higher scores first, then by name,
/// candidates that compare equal kept in the order given.
pub fn order_candidates(items: &[Item], candidates: &Vec<(usize, u64)>) -> (r: Vec<usize>)
    requires
        forall|j: int| 0 <= j < candidates@.len() ==> (#[trigger] candidates@[j]).0 < items@.len(),
    ensures
        r@ == indexes(sort_by(entries(candidates@), ranks_before(items@))),
{
    let lower = lowercase_titles(items);
    let ghost all = items@;
    let ghost spec_candidates = entries(candidates@);
    let mut sorted: Vec<(usize, u64)> = Vec::new();
    let ghost mut spec_sorted: Seq<Entry> = seq![];
    let mut k: usize = 0;
    while k < candidates.len()
        invariant
            k <= candidates@.len(),
            all == items@,
            lower@.len() == items@.len(),
            forall|j: int|
                0 <= j < lower@.len() ==> (#[trigger] lower@[j])@ == lowercase(items@[j].title@),
            candidates@.len() == spec_candidates.len(),
            forall|j: int|
                0 <= j < candidates@.len() ==> (#[trigger] candidates@[j]).0 == spec_candidates[j].0
                    && candidates@[j].1 as int == spec_candidates[j].1,
            forall|j: int| 0 <= j < candidates@.len() ==> (#[trigger] candidates@[j]).0 < items@.len(),
            sorted@.len() == spec_sorted.len(),
            forall|j: int|
                0 <= j < sorted@.len() ==> (#[trigger] sorted@[j]).0 == spec_sorted[j].0
                    && sorted@[j].1 as int == spec_sorted[j].1 && sorted@[j].0 < items@.len(),
            spec_sorted == sort_by(spec_candidates.take(k as int), ranks_before(all)),
        decreases candidates.len() - k,
    {
        let x = candidates[k];
        proof {
            assert(spec_candidates.take(k + 1).drop_last() == spec_candidates.take(k as int));
            assert(spec_candidates.take(k + 1).last() == spec_candidates[k as int]);
        }
        let ghost gx: Entry = (x.0, x.1 as int);
        assert(gx == spec_candidates[k as int]);
        let mut p: usize = 0;
        let mut found = false;
        while p < sorted.len() && !found
            invariant
                gx == (x.0, x.1 as int),
                p <= sorted@.len(),
                x.0 < items@.len(),
                all == items@,
                lower@.len() == items@.len(),
                forall|j: int|
                    0 <= j < lower@.len() ==> (#[trigger] lower@[j])@ == lowercase(items@[j].title@),
                sorted@.len() == spec_sorted.len(),
                forall|j: int|
                    0 <= j < sorted@.len() ==> (#[trigger] sorted@[j]).0 == spec_sorted[j].0
                        && sorted@[j].1 as int == spec_sorted[j].1 && sorted@[j].0 < items@.len(),
                forall|j: int| 0 <= j < p ==> !(ranks_before(all))(gx, #[trigger] spec_sorted[j]),
                found ==> p < sorted@.len() && (ranks_before(all))(gx, spec_sorted[p as int]),
            decreases sorted.len() - p + if found {
                0int
            } else {
                1int
            },
        {
            let e = sorted[p];
            let goes_before = x.1 > e.1 || (x.1 == e.1 && before_by_name(items, &lower, x.0, e.0));
            proof {
                let ge = spec_sorted[p as int];
                assert(e.0 == ge.0);
                assert(e.1 as int == ge.1);
                assert(goes_before == (ranks_before(all))(gx, ge));
            }
            if goes_before {
                found = true;
            } else {
                p += 1;
            }
        }
        proof {
            lemma_insert_by(gx, spec_sorted, ranks_before(all), p as int);
            spec_sorted = spec_sorted.insert(p as int, gx);
        }
        sorted.insert(p, x);
        assert forall|j: int| 0 <= j < sorted@.len() implies (#[trigger] sorted@[j]).0 == spec_sorted[j].0
            && sorted@[j].1 as int == spec_sorted[j].1 && sorted@[j].0 < items@.len() by {
            if j < p {
            } else if j > p {
            }
        }
        k += 1;
    }
    assert(spec_candidates.take(spec_candidates.len() as int) == spec_candidates);
    let mut r: Vec<usize> = Vec::new();
    let mut k: usize = 0;
    while k < sorted.len()
        invariant
            k <= sorted@.len(),
            sorted@.len() == spec_sorted.len(),
            forall|j: int| 0 <= j < sorted@.len() ==> (#[trigger] sorted@[j]).0 == spec_sorted[j].0,
            r@ == indexes(spec_sorted.take(k as int)),
        decreases sorted.len() - k,
    {
        r.push(sorted[k].0);
        assert(indexes(spec_sorted.take(k + 1)) =~= indexes(spec_sorted.take(k as int)).push(
            spec_sorted[k as int].0,
        ));
        k += 1;
    }
    assert(spec_sorted.take(spec_sorted.len() as int) == spec_sorted);
    r
}

/// The items the launcher lists for a query: the ranked items, at most
/// `limit` of them when there is a limit.
pub fn visible_items(items: &[Item], query: &str, alphabetical: bool, limit: Option<usize>) -> (r:
    Vec<usize>)
    requires
        matchable(items@),
    ensures
        r@ == match limit {
            Some(l) => if l < ranked(items@, query@, alphabetical).len() {
                ranked(items@, query@, alphabetical).take(l as int)
            } else {
                ranked(items@, query@, alphabetical)
            },
            None => ranked(items@, query@, alphabetical),
        },
{
    let mut visible = rank(items, query, alphabetical);
    if let Some(l) = limit {
        visible.truncate(l);
    }
    visible
}

// ---------------------------------------------------------------------------
// Laws
// ---------------------------------------------------------------------------
/// Entries whose scores never rise along the list.
pub open spec fn best_first(s: Seq<Entry>) -> bool {
    forall|i: int, j: int| 0 <= i < j < s.len() ==> (#[trigger] s[i]).1 >= (#[trigger] s[j]).1
}

/// `before` puts an entry first only when its score is at least the other's,
/// and otherwise only when its score is at most the other's.
pub open spec fn follows_scores(before: spec_fn(Entry, Entry) -> bool) -> bool {
    forall|a: Entry, b: Entry|
        (#[trigger] before(a, b) ==> a.1 >= b.1) && (!before(a, b) ==> a.1 <= b.1)
}

proof fn lemma_insert_by_best_first(x: Entry, s: Seq<Entry>, before: spec_fn(Entry, Entry) -> bool)
    requires
        best_first(s),
        follows_scores(before),
    ensures
        best_first(insert_by(x, s, before)),
    decreases s.len(),
{
    let r = insert_by(x, s, before);
    if s.len() == 0 {
        assert(r =~= seq![x]);
    } else if before(x, s[0]) {
        assert(r == seq![x] + s);
        assert forall|i: int, j: int| 0 <= i < j < r.len() implies (#[trigger] r[i]).1 >= (
        #[trigger] r[j]).1 by {
            if i == 0 {
                assert(r[j] == s[j - 1]);
                if j - 1 > 0 {
                    assert(s[0].1 >= s[j - 1].1);
                }
            } else {
                assert(r[i] == s[i - 1] && r[j] == s[j - 1]);
            }
        }
    } else {
        let rest = s.drop_first();
        assert forall|i: int, j: int| 0 <= i < j < rest.len() implies (#[trigger] rest[i]).1 >= (
        #[trigger] rest[j]).1 by {
            assert(rest[i] == s[i + 1] && rest[j] == s[j + 1]);
        }
        lemma_insert_by_best_first(x, rest, before);
        lemma_insert_by_contains(x, rest, before);
        let tail = insert_by(x, rest, before);
        assert(r == seq![s[0]] + tail);
        assert forall|i: int, j: int| 0 <= i < j < r.len() implies (#[trigger] r[i]).1 >= (
        #[trigger] r[j]).1 by {
            if i == 0 {
                assert(r[j] == tail[j - 1]);
                assert(tail.contains(tail[j - 1]));
                if tail[j - 1] != x {
                    let k = choose|k: int| 0 <= k < rest.len() && rest[k] == tail[j - 1];
                    assert(s[k + 1] == tail[j - 1]);
                }
            } else {
                assert(r[i] == tail[i - 1] && r[j] == tail[j - 1]);
            }
        }
    }
}

proof fn lemma_sort_by_best_first(s: Seq<Entry>, before: spec_fn(Entry, Entry) -> bool)
    requires
        follows_scores(before),
    ensures
        best_first(sort_by(s, before)),
    decreases s.len(),
{
    if s.len() > 0 {
        lemma_sort_by_best_first(s.drop_last(), before);
        lemma_insert_by_best_first(s.last(), sort_by(s.drop_last(), before), before);
    }
}

proof fn lemma_sort_by_contains(s: Seq<Entry>, before: spec_fn(Entry, Entry) -> bool)
    ensures
        forall|y: Entry| #[trigger] sort_by(s, before).contains(y) <==> s.contains(y),
    decreases s.len(),
{
    if s.len() > 0 {
        lemma_sort_by_contains(s.drop_last(), before);
        lemma_insert_by_contains(s.last(), sort_by(s.drop_last(), before), before);
        assert forall|y: Entry| #[trigger] sort_by(s, before).contains(y) <==> s.contains(y) by {
            if s.drop_last().contains(y) {
                let k = choose|k: int| 0 <= k < s.drop_last().len() && s.drop_last()[k] == y;
                assert(s[k] == y);
            }
            if s.contains(y) && y != s.last() {
                let k = choose|k: int| 0 <= k < s.len() && s[k] == y;
                assert(s.drop_last()[k] == y);
            }
        }
    }
}

proof fn lemma_matches_contain(items: Seq<Item>, query: Seq<char>, n: int)
    requires
        0 <= n <= items.len(),
        items.len() <= usize::MAX,
    ensures
        forall|e: Entry| #[trigger] matches(items, query, n).contains(e) <==> (0 <= e.0 < n
            && item_score(query, items[e.0 as int]) == Some(e.1)),
    decreases n,
{
    if n > 0 {
        lemma_matches_contain(items, query, n - 1);
        let rest = matches(items, query, n - 1);
        assert forall|e: Entry| #[trigger] matches(items, query, n).contains(e) <==> (0 <= e.0 < n
            && item_score(query, items[e.0 as int]) == Some(e.1)) by {
            match item_score(query, items[n - 1]) {
                Some(sc) => {
                    let r = rest.push(((n - 1) as usize, sc));
                    if r.contains(e) {
                        let k = choose|k: int| 0 <= k < r.len() && r[k] == e;
                        if k < rest.len() {
                            assert(rest[k] == e);
                        }
                    }
                    if rest.contains(e) {
                        let k = choose|k: int| 0 <= k < rest.len() && rest[k] == e;
                        assert(r[k] == e);
                    }
                    if e == ((n - 1) as usize, sc) {
                        assert(r[rest.len() as int] == e);
                    }
                },
                None => {},
            }
        }
    }
}

/// Searching lists every matching item exactly with its score, and better
/// matches never come after worse ones.
pub proof fn law_better_matches_come_first(items: Seq<Item>, query: Seq<char>)
    requires
        items.len() <= usize::MAX,
    ensures
        best_first(sort_by(matches(items, query, items.len() as int), ranks_before(items))),
        forall|e: Entry|
            #[trigger] sort_by(matches(items, query, items.len() as int), ranks_before(items)).contains(e)
                <==> (0 <= e.0 < items.len() && item_score(query, items[e.0 as int]) == Some(e.1)),
{
    let before = ranks_before(items);
    assert(follows_scores(before));
    lemma_sort_by_best_first(matches(items, query, items.len() as int), before);
    lemma_sort_by_contains(matches(items, query, items.len() as int), before);
    lemma_matches_contain(items, query, items.len() as int);
}

/// A title match outranks a match through search terms alone: when item `a`'s
/// title matches with score `s` and item `b` matches only through a search
/// term, with a best term score below `s + 1000`, then `a` is listed
/// strictly before `b`, whatever their names.
pub proof fn law_title_matches_come_before_term_matches(
    items: Seq<Item>,
    query: Seq<char>,
    alphabetical: bool,
    a: int,
    b: int,
    s: int,
    t: int,
)
    requires
        items.len() <= usize::MAX,
        query.len() > 0,
        0 <= a < items.len(),
        0 <= b < items.len(),
        as_int(fuzzy_score(query, items[a].title@)) == Some(s),
        fuzzy_score(query, items[b].title@) is None,
        term_score(query, items[b].search_terms@) == Some(t),
        t < s + 1000,
    ensures
        exists|i: int, j: int|
            0 <= i < j < ranked(items, query, alphabetical).len() && #[trigger] ranked(
                items,
                query,
                alphabetical,
            )[i] == a as usize && #[trigger] ranked(items, query, alphabetical)[j] == b as usize,
{
    let sorted = sort_by(matches(items, query, items.len() as int), ranks_before(items));
    law_better_matches_come_first(items, query);
    let sa = item_score(query, items[a]).unwrap();
    let sb = item_score(query, items[b]).unwrap();
    assert(sa >= s + 1000);
    assert(sb == t);
    assert(sorted.contains((a as usize, sa)));
    assert(sorted.contains((b as usize, sb)));
    let i = choose|i: int| 0 <= i < sorted.len() && sorted[i] == (a as usize, sa);
    let j = choose|j: int| 0 <= j < sorted.len() && sorted[j] == (b as usize, sb);
    if j < i {
        assert(sorted[j].1 >= sorted[i].1);
    }
    assert(i != j);
    let r = ranked(items, query, alphabetical);
    assert(r == indexes(sorted));
    assert(r[i] == a as usize);
    assert(r[j] == b as usize);
}

/// No entry goes before one listed earlier.
pub open spec fn sorted_by(s: Seq<Entry>, before: spec_fn(Entry, Entry) -> bool) -> bool {
    forall|i: int, j: int| 0 <= i < j < s.len() ==> !before(#[trigger] s[j], #[trigger] s[i])
}

/// `before` is a strict order: nothing goes before itself, and it chains.
pub open spec fn strict_order(before: spec_fn(Entry, Entry) -> bool) -> bool {
    &&& forall|a: Entry| !#[trigger] before(a, a)
    &&& forall|a: Entry, b: Entry, c: Entry|
        #[trigger] before(a, b) && #[trigger] before(b, c) ==> before(a, c)
}

proof fn lemma_insert_by_sorted(x: Entry, s: Seq<Entry>, before: spec_fn(Entry, Entry) -> bool)
    requires
        sorted_by(s, before),
        strict_order(before),
    ensures
        sorted_by(insert_by(x, s, before), before),
        forall|y: Entry| #[trigger] insert_by(x, s, before).contains(y) <==> (y == x || s.contains(y)),
    decreases s.len(),
{
    lemma_insert_by_contains(x, s, before);
    let r = insert_by(x, s, before);
    if s.len() == 0 {
        assert(r =~= seq![x]);
    } else if before(x, s[0]) {
        assert(r == seq![x] + s);
        assert forall|i: int, j: int| 0 <= i < j < r.len() implies !before(
            #[trigger] r[j],
            #[trigger] r[i],
        ) by {
            if i == 0 {
                assert(r[j] == s[j - 1]);
                if before(s[j - 1], x) {
                    assert(before(s[j - 1], s[0]));
                }
            } else {
                assert(r[i] == s[i - 1] && r[j] == s[j - 1]);
            }
        }
    } else {
        let rest = s.drop_first();
        assert forall|i: int, j: int| 0 <= i < j < rest.len() implies !before(
            #[trigger] rest[j],
            #[trigger] rest[i],
        ) by {
            assert(rest[i] == s[i + 1] && rest[j] == s[j + 1]);
        }
        lemma_insert_by_sorted(x, rest, before);
        let tail = insert_by(x, rest, before);
        assert(r == seq![s[0]] + tail);
        assert forall|i: int, j: int| 0 <= i < j < r.len() implies !before(
            #[trigger] r[j],
            #[trigger] r[i],
        ) by {
            if i == 0 {
                assert(r[j] == tail[j - 1]);
                assert(tail.contains(tail[j - 1]));
                if tail[j - 1] != x {
                    let k = choose|k: int| 0 <= k < rest.len() && rest[k] == tail[j - 1];
                    assert(s[k + 1] == tail[j - 1]);
                }
            } else {
                assert(r[i] == tail[i - 1] && r[j] == tail[j - 1]);
            }
        }
    }
}

proof fn lemma_insert_by_contains(x: Entry, s: Seq<Entry>, before: spec_fn(Entry, Entry) -> bool)
    ensures
        forall|y: Entry| #[trigger] insert_by(x, s, before).contains(y) <==> (y == x || s.contains(y)),
    decreases s.len(),
{
    let r = insert_by(x, s, before);
    if s.len() == 0 {
        assert(r =~= seq![x]);
        assert forall|y: Entry| #[trigger] r.contains(y) <==> (y == x || s.contains(y)) by {
            if r.contains(y) {
                assert(r[0] == y);
            }
            if y == x {
                assert(r[0] == y);
            }
        }
    } else if before(x, s[0]) {
        assert(r == seq![x] + s);
        assert forall|y: Entry| #[trigger] r.contains(y) <==> (y == x || s.contains(y)) by {
            if r.contains(y) {
                let k = choose|k: int| 0 <= k < r.len() && r[k] == y;
                if k > 0 {
                    assert(s[k - 1] == y);
                }
            }
            if s.contains(y) {
                let k = choose|k: int| 0 <= k < s.len() && s[k] == y;
                assert(r[k + 1] == y);
            }
            if y == x {
                assert(r[0] == y);
            }
        }
    } else {
        let rest = s.drop_first();
        lemma_insert_by_contains(x, rest, before);
        let tail = insert_by(x, rest, before);
        assert(r == seq![s[0]] + tail);
        assert forall|y: Entry| #[trigger] r.contains(y) <==> (y == x || s.contains(y)) by {
            if r.contains(y) {
                let k = choose|k: int| 0 <= k < r.len() && r[k] == y;
                if k > 0 {
                    assert(tail[k - 1] == y);
                    assert(tail.contains(y));
                    if rest.contains(y) {
                        let m = choose|m: int| 0 <= m < rest.len() && rest[m] == y;
                        assert(s[m + 1] == y);
                    }
                } else {
                    assert(s[0] == y);
                }
            }
            if s.contains(y) {
                let k = choose|k: int| 0 <= k < s.len() && s[k] == y;
                if k == 0 {
                    assert(r[0] == y);
                } else {
                    assert(rest[k - 1] == y);
                    assert(rest.contains(y));
                    assert(tail.contains(y));
                    let m = choose|m: int| 0 <= m < tail.len() && tail[m] == y;
                    assert(r[m + 1] == y);
                }
            }
            if y == x {
                assert(tail.contains(y));
                let m = choose|m: int| 0 <= m < tail.len() && tail[m] == y;
                assert(r[m + 1] == y);
            }
        }
    }
}

proof fn lemma_sort_by_sorted(s: Seq<Entry>, before: spec_fn(Entry, Entry) -> bool)
    requires
        strict_order(before),
    ensures
        sorted_by(sort_by(s, before), before),
    decreases s.len(),
{
    if s.len() > 0 {
        lemma_sort_by_sorted(s.drop_last(), before);
        lemma_insert_by_sorted(s.last(), sort_by(s.drop_last(), before), before);
    }
}

proof fn lemma_ranks_before_strict(items: Seq<Item>)
    ensures
        strict_order(ranks_before(items)),
{
    let before = ranks_before(items);
    assert forall|a: Entry| !#[trigger] before(a, a) by {
        crate::text::lemma_text_less_irreflexive(lowercase(items[a.0 as int].title@));
        crate::text::lemma_text_less_irreflexive(items[a.0 as int].id@);
    }
    assert forall|a: Entry, b: Entry, c: Entry| #[trigger] before(a, b) && #[trigger] before(b, c)
        implies before(a, c) by {
        let (la, lb, lc) = (
            lowercase(items[a.0 as int].title@),
            lowercase(items[b.0 as int].title@),
            lowercase(items[c.0 as int].title@),
        );
        let (ia, ib, ic) = (items[a.0 as int].id@, items[b.0 as int].id@, items[c.0 as int].id@);
        if a.1 == b.1 && b.1 == c.1 {
            if text_less(la, lb) && text_less(lb, lc) {
                crate::text::lemma_text_less_transitive(la, lb, lc);
            }
            if la == lb && lb == lc && text_less(ia, ib) && text_less(ib, ic) {
                crate::text::lemma_text_less_transitive(ia, ib, ic);
            }
        }
    }
}

/// Searching lists items that match equally well by name: no listed item
/// goes before an earlier one, by score and then by lowercase title and id.
pub proof fn law_ties_are_listed_by_name(items: Seq<Item>, query: Seq<char>)
    ensures
        sorted_by(
            sort_by(matches(items, query, items.len() as int), ranks_before(items)),
            ranks_before(items),
        ),
{
    lemma_ranks_before_strict(items);
    lemma_sort_by_sorted(matches(items, query, items.len() as int), ranks_before(items));
}

} // verus!

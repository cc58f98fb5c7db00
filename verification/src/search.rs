//! Fuzzy search over names: every key of an index is scored against the
//! query, and the ids of the keys that match come out best first, each once.

use vstd::prelude::*;

verus! {

/// What `fuzzy_matcher::skim::SkimMatcherV2::default().fuzzy_match` gives for a
/// choice and a pattern: the score of the match, or `None` without a match.
pub uninterp spec fn fuzzy_score(choice: Seq<char>, pattern: Seq<char>) -> Option<i64>;

/// What `str::to_lowercase` gives for a text.
pub uninterp spec fn lowercased(text: Seq<char>) -> Seq<char>;

/// Scores a choice against a pattern with the default
/// `fuzzy_matcher::skim::SkimMatcherV2`. The contract only names the result.
#[verifier::external_body]
fn skim_match(choice: &str, pattern: &str) -> (r: Option<i64>)
    ensures
        r == fuzzy_score(choice@, pattern@),
{
    fuzzy_matcher::FuzzyMatcher::fuzzy_match(
        &fuzzy_matcher::skim::SkimMatcherV2::default(),
        choice,
        pattern,
    )
}

/// `str::to_lowercase` of the standard library. The contract only names the
/// result.
#[verifier::external_body]
pub(crate) fn lowercase(text: &str) -> (r: String)
    ensures
        r@ == lowercased(text@),
{
    text.to_lowercase()
}

/// One key of an index with the ids that it stands for.
pub struct IndexEntry {
    pub key: Seq<char>,
    pub ids: Seq<i64>,
}

/// The entries of an index as plain values.
pub open spec fn index_view(index: Seq<(String, Vec<i64>)>) -> Seq<IndexEntry> {
    Seq::new(index.len(), |i: int| IndexEntry { key: index[i].0@, ids: index[i].1@ })
}

/// The score of a key for a query, both taken in lower case; `None` where
/// the key does not match or the score is not positive.
pub open spec fn key_score(key: Seq<char>, query: Seq<char>) -> Option<i64> {
    match fuzzy_score(lowercased(key), lowercased(query)) {
        Some(s) => if s > 0 {
            Some(s)
        } else {
            None
        },
        None => None,
    }
}

/// Every id of `ids` paired with `score`.
pub open spec fn scored(ids: Seq<i64>, score: i64) -> Seq<(i64, i64)> {
    Seq::new(ids.len(), |i: int| (score, ids[i]))
}

/// The ids of all keys that match the query, each with its key's score, in
/// the order of the index.
pub open spec fn hits(index: Seq<IndexEntry>, query: Seq<char>) -> Seq<(i64, i64)>
    decreases index.len(),
{
    if index.len() == 0 {
        Seq::empty()
    } else {
        let rest = hits(index.drop_last(), query);
        match key_score(index.last().key, query) {
            Some(s) => rest + scored(index.last().ids, s),
            None => rest,
        }
    }
}

/// The place at which a new hit goes into a list that is ordered from the
/// best score down: behind every hit that is not worse.
pub open spec fn place_of(sorted: Seq<(i64, i64)>, score: i64) -> int
    decreases sorted.len(),
{
    if sorted.len() == 0 {
        0
    } else if sorted.last().0 >= score {
        sorted.len() as int
    } else {
        place_of(sorted.drop_last(), score)
    }
}

/// The hits ordered from the best score down; hits of equal score keep
/// their order.
pub open spec fn best_first(items: Seq<(i64, i64)>) -> Seq<(i64, i64)>
    decreases items.len(),
{
    if items.len() == 0 {
        Seq::empty()
    } else {
        let sorted = best_first(items.drop_last());
        sorted.insert(place_of(sorted, items.last().0), items.last())
    }
}

/// The place is inside the list.
pub proof fn lemma_place_in_range(sorted: Seq<(i64, i64)>, score: i64)
    ensures
        0 <= place_of(sorted, score) <= sorted.len(),
    decreases sorted.len(),
{
    if sorted.len() > 0 && sorted.last().0 < score {
        lemma_place_in_range(sorted.drop_last(), score);
    }
}

/// Sorting keeps the number of hits.
pub proof fn lemma_best_first_len(items: Seq<(i64, i64)>)
    ensures
        best_first(items).len() == items.len(),
    decreases items.len(),
{
    if items.len() > 0 {
        lemma_best_first_len(items.drop_last());
        lemma_place_in_range(best_first(items.drop_last()), items.last().0);
    }
}

/// The ids of the hits, each at its first place only.
pub open spec fn unique_ids(items: Seq<(i64, i64)>) -> Seq<i64>
    decreases items.len(),
{
    if items.len() == 0 {
        Seq::empty()
    } else {
        let rest = unique_ids(items.drop_last());
        if rest.contains(items.last().1) {
            rest
        } else {
            rest.push(items.last().1)
        }
    }
}

/// The result of a search: the ids of the keys that match, best first, each
/// once.
pub open spec fn search_result(index: Seq<IndexEntry>, query: Seq<char>) -> Seq<i64> {
    unique_ids(best_first(hits(index, query)))
}

/// The score of one key for a query that is already in lower case.
pub fn do_fuzzy_match(key: &str, query_lower: &str) -> (r: Option<i64>)
    ensures
        r == (match fuzzy_score(lowercased(key@), query_lower@) {
            Some(s) => if s > 0 {
                Some(s)
            } else {
                None
            },
            None => None,
        }),
{
    let key_lower = lowercase(key);
    match skim_match(key_lower.as_str(), query_lower) {
        None => None,
        Some(score) => if score <= 0 {
            None
        } else {
            Some(score)
        },
    }
}

/// Puts the hits in order, from the best score down.
pub fn sort_best_first(items: &Vec<(i64, i64)>) -> (r: Vec<(i64, i64)>)
    ensures
        r@ == best_first(items@),
{
    let mut out: Vec<(i64, i64)> = Vec::new();
    let mut i: usize = 0;
    assert(items@.subrange(0, 0) =~= Seq::<(i64, i64)>::empty());
    while i < items.len()
        invariant
            i <= items.len(),
            out@ == best_first(items@.subrange(0, i as int)),
        decreases items.len() - i,
    {
        proof {
            let next = items@.subrange(0, i as int + 1);
            assert(next.drop_last() =~= items@.subrange(0, i as int));
            assert(next.last() == items@[i as int]);
            lemma_best_first_len(items@.subrange(0, i as int));
        }
        let item = items[i];
        let mut p: usize = out.len();
        assert(out@.subrange(0, p as int) =~= out@);
        while p > 0 && out[p - 1].0 < item.0
            invariant
                p <= out.len(),
                place_of(out@, item.0) == place_of(out@.subrange(0, p as int), item.0),
            decreases p,
        {
            proof {
                let cur = out@.subrange(0, p as int);
                assert(cur.last() == out@[p - 1]);
                assert(cur.drop_last() =~= out@.subrange(0, p - 1));
            }
            p -= 1;
        }
        proof {
            let cur = out@.subrange(0, p as int);
            if p > 0 {
                assert(cur.last() == out@[p - 1]);
            }
            assert(place_of(cur, item.0) == p);
        }
        out.insert(p, item);
        i += 1;
    }
    assert(items@.subrange(0, items@.len() as int) =~= items@);
    out
}

fn has_id(ids: &Vec<i64>, id: i64) -> (r: bool)
    ensures
        r == ids@.contains(id),
{
    let mut i: usize = 0;
    while i < ids.len()
        invariant
            i <= ids.len(),
            forall|k: int| 0 <= k < i ==> ids@[k] != id,
        decreases ids.len() - i,
    {
        if ids[i] == id {
            return true;
        }
        i += 1;
    }
    false
}

/// The ids of the hits, each at its first place only.
pub fn first_occurrences(items: &Vec<(i64, i64)>) -> (r: Vec<i64>)
    ensures
        r@ == unique_ids(items@),
{
    let mut out: Vec<i64> = Vec::new();
    let mut i: usize = 0;
    assert(items@.subrange(0, 0) =~= Seq::<(i64, i64)>::empty());
    while i < items.len()
        invariant
            i <= items.len(),
            out@ == unique_ids(items@.subrange(0, i as int)),
        decreases items.len() - i,
    {
        proof {
            let next = items@.subrange(0, i as int + 1);
            assert(next.drop_last() =~= items@.subrange(0, i as int));
            assert(next.last() == items@[i as int]);
        }
        if !has_id(&out, items[i].1) {
            out.push(items[i].1);
        }
        i += 1;
    }
    assert(items@.subrange(0, items@.len() as int) =~= items@);
    out
}

/// Searches an index for a query: the ids of all keys with a positive score,
/// ordered from the best score down, each id once at its best place.
pub fn fuzzy_find(index: &Vec<(String, Vec<i64>)>, query: &str) -> (r: Vec<i64>)
    ensures
        r@ == search_result(index_view(index@), query@),
{
    let query_lower = lowercase(query);
    let mut found: Vec<(i64, i64)> = Vec::new();
    let mut i: usize = 0;
    assert(index_view(index@).subrange(0, 0) =~= Seq::<IndexEntry>::empty());
    while i < index.len()
        invariant
            i <= index.len(),
            query_lower@ == lowercased(query@),
            found@ == hits(index_view(index@).subrange(0, i as int), query@),
        decreases index.len() - i,
    {
        proof {
            let next = index_view(index@).subrange(0, i as int + 1);
            assert(next.drop_last() =~= index_view(index@).subrange(0, i as int));
            assert(next.last() == index_view(index@)[i as int]);
        }
        match do_fuzzy_match(index[i].0.as_str(), query_lower.as_str()) {
            None => {},
            Some(score) => {
                let ids = &index[i].1;
                let ghost base = found@;
                let mut k: usize = 0;
                while k < ids.len()
                    invariant
                        k <= ids.len(),
                        found@ == base + scored(ids@, score).subrange(0, k as int),
                    decreases ids.len() - k,
                {
                    found.push((score, ids[k]));
                    assert(found@ =~= base + scored(ids@, score).subrange(0, k as int + 1));
                    k += 1;
                }
                assert(scored(ids@, score).subrange(0, ids@.len() as int) =~= scored(ids@, score));
            },
        }
        i += 1;
    }
    assert(index_view(index@).subrange(0, index@.len() as int) =~= index_view(index@));
    let sorted = sort_best_first(&found);
    first_occurrences(&sorted)
}

} // verus!

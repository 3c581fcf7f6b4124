//! Search planning, re-ranking and pagination.
//!
//! One search call is a stateless pipeline: `plan_search` decides how the
//! external record store is to be queried; the caller fetches the candidate
//! pool accordingly; `page_fuzzy` (or `page_listing` for the empty query)
//! re-ranks that pool by edit distance to the query and slices the
//! requested page out of it, with a flag for whether more results exist.
//! Pagination is deliberately scoped to the fetched pool, not the full
//! corpus: the over-fetch bounds the cost of re-ranking.

use vstd::prelude::*;
use vstd::multiset::Multiset;
use crate::distance::{edit_distance, levenshtein};
use crate::models::Link;
use crate::query::{build_index_expression, index_expression, trim_str, trimmed};

verus! {

/// How the record store is to be queried for one search call.
#[derive(Debug, Clone, PartialEq)]
pub enum SearchPlan {
    /// Query the trigram index with `expression`, letting the index rank,
    /// capped at `fetch_limit` rows: the candidate pool for re-ranking.
    Fuzzy { expression: String, fetch_limit: u32 },
    /// Skip the index: list records newest first, `fetch_limit` rows
    /// starting at `offset`; the one extra row signals a next page.
    Listing { fetch_limit: u32, offset: u32 },
}

/// One page of results: at most the requested number of records, and
/// whether more matches lie beyond it in the pool.
#[derive(Debug, Clone, PartialEq)]
pub struct ResultPage {
    pub items: Vec<Link>,
    pub has_next: bool,
}

/// Edit distance from a record's key to the (already trimmed) query.
pub open spec fn dist_to(q: Seq<char>, l: Link) -> nat {
    edit_distance(l.short_link@, q)
}

/// Whether `s` is ordered by ascending edit distance of its keys to `q`.
/// Records at equal distance may stand in any order.
pub open spec fn sorted_by_dist(q: Seq<char>, s: Seq<Link>) -> bool {
    forall|i: int, j: int| 0 <= i < j < s.len() ==> dist_to(q, s[i]) <= dist_to(q, s[j])
}

/// The page at `offset` of length at most `limit` sliced out of `s`.
pub open spec fn page_of(s: Seq<Link>, offset: int, limit: int) -> Seq<Link> {
    if offset >= s.len() {
        Seq::empty()
    } else if s.len() - offset > limit {
        s.subrange(offset, offset + limit)
    } else {
        s.subrange(offset, s.len() as int)
    }
}

/// Decide how the store is queried: a query that is empty after trimming
/// bypasses fuzzy search for the recency listing (fetching one row beyond
/// the page to detect a next page); any other query goes to the trigram
/// index, over-fetching four times the page size as the re-ranking pool.
pub fn plan_search(q: &str, page: u32, limit: u32) -> (p: SearchPlan)
    requires
        1 <= page,
        1 <= limit,
        (page - 1) * limit + limit <= u32::MAX,
        4 * limit <= u32::MAX,
    ensures
        trimmed(q@).len() == 0 ==> (p matches SearchPlan::Listing { fetch_limit, offset }
            && fetch_limit == limit + 1 && offset == (page - 1) * limit),
        trimmed(q@).len() > 0 ==> (p matches SearchPlan::Fuzzy { expression, fetch_limit }
            && expression@ == index_expression(q@) && fetch_limit == 4 * limit),
{
    let t: String = trim_str(q);
    if t.as_str().is_empty() {
        SearchPlan::Listing { fetch_limit: limit + 1, offset: (page - 1) * limit }
    } else {
        SearchPlan::Fuzzy { expression: build_index_expression(q), fetch_limit: 4 * limit }
    }
}

/// Edit distance from `l`'s key to the trimmed query `qt`.
fn dist_of(l: &Link, qt: &str) -> (d: usize)
    ensures
        d == dist_to(qt@, *l),
{
    levenshtein(l.short_link.as_str(), qt)
}

/// First position in the distance-sorted `out` whose record lies strictly
/// farther from the query than `dx`.
fn insert_position(out: &Vec<Link>, qt: &str, dx: usize) -> (pos: usize)
    ensures
        pos <= out@.len(),
        forall|k: int| 0 <= k < pos ==> dist_to(qt@, out@[k]) <= dx,
        pos < out@.len() ==> dist_to(qt@, out@[pos as int]) > dx,
{
    let n: usize = out.len();
    let mut pos: usize = 0;
    while pos < n
        invariant
            pos <= n,
            n == out@.len(),
            forall|k: int| 0 <= k < pos ==> dist_to(qt@, out@[k]) <= dx,
        decreases n - pos,
    {
        let d: usize = dist_of(&out[pos], qt);
        if d > dx {
            return pos;
        }
        pos = pos + 1;
    }
    pos
}

/// Re-rank the candidate pool by ascending edit distance of each record's
/// key to the trimmed query. The result holds exactly the records of
/// `candidates`; ties keep no promised order.
pub fn rank_candidates(candidates: Vec<Link>, q: &str) -> (ranked: Vec<Link>)
    ensures
        ranked@.to_multiset() == candidates@.to_multiset(),
        ranked@.len() == candidates@.len(),
        sorted_by_dist(trimmed(q@), ranked@),
{
    let ghost orig: Seq<Link> = candidates@;
    let t: String = trim_str(q);
    let qt: &str = t.as_str();
    let mut rest: Vec<Link> = candidates;
    let mut out: Vec<Link> = Vec::new();
    proof {
        broadcast use vstd::seq_lib::group_to_multiset_ensures;
        assert(out@.to_multiset().add(rest@.to_multiset()) =~= orig.to_multiset());
    }
    while rest.len() > 0
        invariant
            out@.to_multiset().add(rest@.to_multiset()) == orig.to_multiset(),
            out@.len() + rest@.len() == orig.len(),
            sorted_by_dist(t@, out@),
            t@ == trimmed(q@),
            qt@ == t@,
        decreases rest@.len(),
    {
        let ghost rest0: Seq<Link> = rest@;
        let ghost out0: Seq<Link> = out@;
        let x: Link = rest.pop().unwrap();
        let dx: usize = dist_of(&x, qt);
        let pos: usize = insert_position(&out, qt, dx);
        out.insert(pos, x);
        proof {
            broadcast use vstd::seq_lib::group_to_multiset_ensures;
            assert(rest0.drop_last() =~= rest0.remove(rest0.len() - 1));
            assert(rest@.to_multiset() == rest0.to_multiset().remove(x));
            assert(out@.to_multiset() == out0.to_multiset().insert(x));
            assert(rest0.to_multiset().count(x) > 0) by {
                assert(rest0[rest0.len() - 1] == x);
                assert(rest0.contains(x));
            }
            assert(out@.to_multiset().add(rest@.to_multiset()) =~= orig.to_multiset());
            out0.insert_ensures(pos as int, x);
            assert forall|i: int, j: int| 0 <= i < j < out@.len() implies dist_to(t@, out@[i])
                <= dist_to(t@, out@[j]) by {
                if j < pos {
                    assert(out@[i] == out0[i] && out@[j] == out0[j]);
                } else if j == pos {
                    assert(out@[i] == out0[i] && out@[j] == x);
                } else if i < pos {
                    assert(out@[i] == out0[i] && out@[j] == out0[j - 1]);
                    if j - 1 > i {
                        assert(dist_to(t@, out0[i]) <= dist_to(t@, out0[j - 1]));
                    }
                } else if i == pos {
                    assert(out@[i] == x && out@[j] == out0[j - 1]);
                    assert(dist_to(t@, out0[pos as int]) > dx);
                    if j - 1 > pos {
                        assert(dist_to(t@, out0[pos as int]) <= dist_to(t@, out0[j - 1]));
                    }
                } else {
                    assert(out@[i] == out0[i - 1] && out@[j] == out0[j - 1]);
                }
            }
        }
    }
    proof {
        broadcast use vstd::seq_lib::group_to_multiset_ensures;
        assert(rest@.to_multiset() =~= Multiset::<Link>::empty());
        assert(out@.to_multiset() =~= orig.to_multiset());
    }
    out
}

/// Slice the page at `offset` of size at most `limit` out of the ranked
/// pool `v`; `has_next` says whether the pool holds records beyond it. An
/// offset at or past the pool's end yields an empty page.
pub fn slice_page(v: Vec<Link>, offset: usize, limit: usize) -> (r: ResultPage)
    ensures
        r.items@ == page_of(v@, offset as int, limit as int),
        r.has_next <==> v@.len() > offset + limit,
{
    if offset >= v.len() {
        ResultPage { items: Vec::new(), has_next: false }
    } else {
        let avail: usize = v.len() - offset;
        let has_next: bool = avail > limit;
        let count: usize = if has_next {
            limit
        } else {
            avail
        };
        let mut head: Vec<Link> = v;
        let mut tail: Vec<Link> = head.split_off(offset);
        tail.truncate(count);
        proof {
            assert(tail@ =~= page_of(head@ + tail@, offset as int, limit as int)) by {
                assert(head@ + tail@ =~= head@ + tail@);
            }
        }
        ResultPage { items: tail, has_next }
    }
}

/// Re-rank the fuzzy candidate pool and slice the requested page out of it.
///
/// The page is a contiguous slice of a distance-sorted permutation of
/// `candidates`: at most `limit` records, those at positions `offset` and
/// beyond. `has_next` holds exactly when the pool extends past the page;
/// an offset at or past the pool's size yields an empty page with no next.
pub fn page_fuzzy(candidates: Vec<Link>, q: &str, offset: usize, limit: usize) -> (r: ResultPage)
    ensures
        exists|s: Seq<Link>|
            {
                &&& #[trigger] s.to_multiset() == candidates@.to_multiset()
                &&& sorted_by_dist(trimmed(q@), s)
                &&& r.items@ == page_of(s, offset as int, limit as int)
            },
        r.items@.len() <= limit,
        sorted_by_dist(trimmed(q@), r.items@),
        r.has_next <==> candidates@.len() > offset + limit,
        offset >= candidates@.len() ==> r.items@.len() == 0 && !r.has_next,
        forall|i: int|
            0 <= i < r.items@.len() ==> candidates@.to_multiset().count(#[trigger] r.items@[i])
                > 0,
{
    let ranked: Vec<Link> = rank_candidates(candidates, q);
    let ghost s: Seq<Link> = ranked@;
    let r: ResultPage = slice_page(ranked, offset, limit);
    proof {
        broadcast use vstd::seq_lib::group_to_multiset_ensures;
        assert(s.to_multiset() == candidates@.to_multiset() && sorted_by_dist(trimmed(q@), s)
            && r.items@ == page_of(s, offset as int, limit as int));
        assert forall|i: int| 0 <= i < r.items@.len() implies candidates@.to_multiset().count(
            #[trigger] r.items@[i],
        ) > 0 by {
            assert(r.items@[i] == s[offset + i]);
            assert(s.contains(s[offset + i]));
        }
        assert forall|i: int, j: int|
            0 <= i < j < r.items@.len() implies dist_to(trimmed(q@), r.items@[i]) <= dist_to(
            trimmed(q@),
            r.items@[j],
        ) by {
            assert(r.items@[i] == s[offset + i]);
            assert(r.items@[j] == s[offset + j]);
        }
    }
    r
}

/// Page the recency listing: the store hands the rows for the page already
/// ordered, over-fetched by one row; a pool larger than the page size means
/// a next page exists, and the extra row is dropped.
pub fn page_listing(candidates: Vec<Link>, limit: usize) -> (r: ResultPage)
    ensures
        r.items@ == page_of(candidates@, 0, limit as int),
        r.has_next <==> candidates@.len() > limit,
{
    slice_page(candidates, 0, limit)
}

} // verus!

//! What holds of every page request, proved from the specifications of the
//! planner, the store and the assembler.

use crate::connection::{connection_spec, edges_of, page_rows, ConnectionView};
use crate::cursor::{decode_spec, encode_spec, lemma_decode_encode, NodeKind};
use crate::error::ClientInputError;
use crate::request::{
    plan_spec, valid_key, PageArgs, RangeQuery, LOWER_SENTINEL, UPPER_SENTINEL,
};
use crate::store::{ascending, fetch_spec, hits, lemma_hits_push, Row};
use vstd::prelude::*;

verus! {

/// The page among all the rows in range: the first `size` of them for a
/// forward query, the last `size` of them for a backward one.
pub open spec fn window<T>(found: Seq<Row<T>>, q: RangeQuery) -> Seq<Row<T>> {
    if found.len() <= q.size {
        found
    } else if q.ascending {
        found.take(q.size as int)
    } else {
        found.skip(found.len() - q.size)
    }
}

/// The key that a cursor holds for `kind`, if it holds one.
pub open spec fn key_of(kind: NodeKind, cursor: Seq<char>) -> Option<i32> {
    match decode_spec(kind, cursor) {
        Ok(Some(key)) => Some(key),
        _ => None,
    }
}

/// A request as `args`, with `after` replaced.
pub open spec fn with_after(args: PageArgs, after: Option<Seq<char>>) -> PageArgs {
    PageArgs { first: args.first, after, last: args.last, before: args.before }
}

/// A request as `args`, with `before` replaced.
pub open spec fn with_before(args: PageArgs, before: Option<Seq<char>>) -> PageArgs {
    PageArgs { first: args.first, after: args.after, last: args.last, before }
}

/// A request with `first`, `last` and `before` as in `args` and without
/// `after`.
pub open spec fn without_after(args: PageArgs) -> PageArgs {
    with_after(args, None)
}

/// A request with `first`, `after` and `last` as in `args` and without
/// `before`.
pub open spec fn without_before(args: PageArgs) -> PageArgs {
    with_before(args, None)
}

/// The request that names a count of entities from the start and nothing
/// else.
pub open spec fn first_only(n: i32) -> PageArgs {
    PageArgs { first: Some(n), after: None, last: None, before: None }
}

/// The rows in range are rows of the store, in the order of the store, and
/// each lies in the range.
pub proof fn lemma_hits_within<T>(rows: Seq<Row<T>>, q: RangeQuery)
    ensures
        hits(rows, q).len() <= rows.len(),
        forall|i: int|
            0 <= i < hits(rows, q).len() ==> q.lower < (#[trigger] hits(rows, q)[i]).key < q.upper,
        ascending(rows) ==> ascending(hits(rows, q)),
        ascending(rows) && hits(rows, q).len() > 0 ==> hits(rows, q).last().key
            <= rows.last().key,
    decreases rows.len(),
{
    reveal(Seq::filter);
    if rows.len() > 0 {
        let front = rows.drop_last();
        lemma_hits_within(front, q);
        assert(rows =~= front.push(rows.last()));
        lemma_hits_push(front, rows.last(), q);
        if ascending(rows) {
            assert(ascending(front)) by {
                assert forall|i: int| 0 <= i < front.len() implies valid_key(
                    #[trigger] front[i].key,
                ) by {
                    assert(front[i] == rows[i]);
                }
                assert forall|i: int, j: int| 0 <= i < j < front.len() implies front[i].key
                    < front[j].key by {
                    assert(front[i] == rows[i] && front[j] == rows[j]);
                }
            }
            let found = hits(rows, q);
            let before = hits(front, q);
            if before.len() > 0 {
                assert(front.len() > 0);
                assert(front.last() == rows[rows.len() - 2]);
                assert(before.last().key < rows.last().key);
            }
            assert forall|i: int, j: int| 0 <= i < j < found.len() implies found[i].key
                < found[j].key by {
                if j < before.len() {
                    assert(found[i] == before[i] && found[j] == before[j]);
                } else {
                    assert(found[j] == rows.last());
                    assert(found[i] == before[i]);
                    assert(before[i].key <= before.last().key) by {
                        if i < before.len() - 1 {
                            assert(before[i].key < before[before.len() - 1].key);
                        }
                    }
                }
            }
            assert forall|i: int| 0 <= i < found.len() implies valid_key(
                #[trigger] found[i].key,
            ) by {
                if i < before.len() {
                    assert(found[i] == before[i]);
                } else {
                    assert(found[i] == rows[rows.len() - 1]);
                }
            }
        }
    }
}

/// Where every row lies in the range, the rows in range are all the rows.
pub proof fn lemma_hits_all<T>(rows: Seq<Row<T>>, q: RangeQuery)
    requires
        forall|i: int| 0 <= i < rows.len() ==> q.lower < (#[trigger] rows[i]).key < q.upper,
    ensures
        hits(rows, q) == rows,
    decreases rows.len(),
{
    reveal(Seq::filter);
    if rows.len() > 0 {
        let front = rows.drop_last();
        assert forall|i: int| 0 <= i < front.len() implies q.lower < (#[trigger] front[i]).key
            < q.upper by {
            assert(front[i] == rows[i]);
        }
        lemma_hits_all(front, q);
        assert(rows =~= front.push(rows.last()));
        lemma_hits_push(front, rows.last(), q);
        assert(q.lower < rows[rows.len() - 1].key < q.upper);
    } else {
        assert(hits(rows, q) =~= rows);
    }
}

/// Page information is exact. The page of a query is the window of all the
/// rows in range, and the fetch returns a row beyond the page size exactly
/// when more rows lie in range than fit on the page.
pub proof fn lemma_page_exact<T>(rows: Seq<Row<T>>, q: RangeQuery)
    ensures
        page_rows(q, fetch_spec(rows, q)) == window(hits(rows, q), q),
        fetch_spec(rows, q).len() > q.size <==> hits(rows, q).len() > q.size,
{
    let found = hits(rows, q);
    let fetched = fetch_spec(rows, q);
    let page = page_rows(q, fetched);
    if q.ascending {
        assert(page =~= window(found, q));
    } else {
        assert(page =~= window(found, q));
    }
}

/// Every page is in ascending key order and within the bounds of its query,
/// and holds no more rows than the page size.
pub proof fn lemma_page_ordered<T>(rows: Seq<Row<T>>, q: RangeQuery)
    requires
        ascending(rows),
    ensures
        ascending(page_rows(q, fetch_spec(rows, q))),
        page_rows(q, fetch_spec(rows, q)).len() <= q.size,
        forall|i: int|
            0 <= i < page_rows(q, fetch_spec(rows, q)).len() ==> q.lower < (#[trigger] page_rows(
                q,
                fetch_spec(rows, q),
            )[i]).key < q.upper,
{
    lemma_page_exact(rows, q);
    lemma_hits_within(rows, q);
    let found = hits(rows, q);
    let page = window(found, q);
    if found.len() > q.size && !q.ascending {
        let skipped = found.len() - q.size;
        assert forall|i: int| 0 <= i < page.len() implies page[i] == found[i + skipped] by {}
    }
}

/// What a successful request returns: the edges of the window of the rows
/// in range, the flag of its direction set exactly when rows in range are
/// left beyond the window, and the other flag unset.
pub proof fn lemma_connection_exact<T>(kind: NodeKind, rows: Seq<Row<T>>, args: PageArgs)
    requires
        plan_spec(kind, args) is Ok,
    ensures
        connection_spec(kind, rows, args) is Ok,
        ({
            let q = plan_spec(kind, args)->Ok_0;
            let c = connection_spec(kind, rows, args)->Ok_0;
            let found = hits(rows, q);
            &&& c.edges == edges_of(kind, window(found, q))
            &&& c.page_info.has_next_page == (q.ascending && found.len() > q.size)
            &&& c.page_info.has_previous_page == (!q.ascending && found.len() > q.size)
        }),
{
    lemma_page_exact(rows, plan_spec(kind, args)->Ok_0);
}

/// The cursor of every edge holds the key of its row.
pub proof fn lemma_edge_keys<T>(kind: NodeKind, page: Seq<Row<T>>)
    ensures
        edges_of(kind, page).len() == page.len(),
        forall|i: int|
            0 <= i < page.len() ==> key_of(kind, (#[trigger] edges_of(kind, page)[i]).cursor)
                == Some(page[i].key),
{
    assert forall|i: int| 0 <= i < page.len() implies key_of(
        kind,
        (#[trigger] edges_of(kind, page)[i]).cursor,
    ) == Some(page[i].key) by {
        lemma_decode_encode(kind, page[i].key);
    }
}

/// A request with `first = n` and nothing else returns the first `n`
/// entities of the store, or all of them where it holds fewer, in ascending
/// key order, and says whether entities are left.
pub proof fn lemma_first_only<T>(kind: NodeKind, rows: Seq<Row<T>>, n: i32)
    requires
        ascending(rows),
        n >= 0,
    ensures
        connection_spec(kind, rows, first_only(n)) is Ok,
        ({
            let c = connection_spec(kind, rows, first_only(n))->Ok_0;
            let count = if n <= rows.len() { n as int } else { rows.len() as int };
            &&& c.edges.len() == count
            &&& c.edges == edges_of(kind, rows.take(count))
            &&& forall|i: int|
                0 <= i < count ==> key_of(kind, (#[trigger] c.edges[i]).cursor) == Some(
                    rows[i].key,
                )
            &&& forall|i: int, j: int| 0 <= i < j < count ==> rows[i].key < rows[j].key
            &&& c.page_info.has_next_page == (rows.len() > n)
            &&& !c.page_info.has_previous_page
        }),
{
    let args = first_only(n);
    let q = plan_spec(kind, args)->Ok_0;
    assert(q == RangeQuery {
        lower: LOWER_SENTINEL,
        upper: UPPER_SENTINEL,
        size: n as u32,
        ascending: true,
    });
    lemma_hits_all(rows, q);
    lemma_connection_exact(kind, rows, args);
    let count = if n <= rows.len() { n as int } else { rows.len() as int };
    assert(window(rows, q) =~= rows.take(count));
    lemma_edge_keys(kind, rows.take(count));
}

/// With the cursor of key `k` as `after`, every edge returned has a key
/// above `k`.
pub proof fn lemma_after_cursor<T>(kind: NodeKind, rows: Seq<Row<T>>, args: PageArgs, k: i32)
    requires
        args.after == Some(encode_spec(kind, k)),
        connection_spec(kind, rows, args) is Ok,
    ensures
        forall|i: int|
            0 <= i < connection_spec(kind, rows, args)->Ok_0.edges.len() ==> ({
                let key = key_of(
                    kind,
                    (#[trigger] connection_spec(kind, rows, args)->Ok_0.edges[i]).cursor,
                );
                key is Some && key->0 > k
            }),
{
    lemma_decode_encode(kind, k);
    let q = plan_spec(kind, args)->Ok_0;
    assert(q.lower == k);
    lemma_bounds_hold(kind, rows, args);
}

/// With the cursor of key `k` as `before`, every edge returned has a key
/// below `k`.
pub proof fn lemma_before_cursor<T>(kind: NodeKind, rows: Seq<Row<T>>, args: PageArgs, k: i32)
    requires
        args.before == Some(encode_spec(kind, k)),
        connection_spec(kind, rows, args) is Ok,
    ensures
        forall|i: int|
            0 <= i < connection_spec(kind, rows, args)->Ok_0.edges.len() ==> ({
                let key = key_of(
                    kind,
                    (#[trigger] connection_spec(kind, rows, args)->Ok_0.edges[i]).cursor,
                );
                key is Some && key->0 < k
            }),
{
    lemma_decode_encode(kind, k);
    let q = plan_spec(kind, args)->Ok_0;
    assert(q.upper == k);
    lemma_bounds_hold(kind, rows, args);
}

/// Every edge returned has a key strictly between the bounds of the
/// planned query.
pub proof fn lemma_bounds_hold<T>(kind: NodeKind, rows: Seq<Row<T>>, args: PageArgs)
    requires
        connection_spec(kind, rows, args) is Ok,
    ensures
        forall|i: int|
            0 <= i < connection_spec(kind, rows, args)->Ok_0.edges.len() ==> ({
                let key = key_of(
                    kind,
                    (#[trigger] connection_spec(kind, rows, args)->Ok_0.edges[i]).cursor,
                );
                let q = plan_spec(kind, args)->Ok_0;
                key is Some && q.lower < key->0 < q.upper
            }),
{
    let q = plan_spec(kind, args)->Ok_0;
    let c = connection_spec(kind, rows, args)->Ok_0;
    let found = hits(rows, q);
    let page = window(found, q);
    lemma_connection_exact(kind, rows, args);
    lemma_hits_within(rows, q);
    lemma_edge_keys(kind, page);
    assert forall|i: int| 0 <= i < c.edges.len() implies ({
        let key = key_of(kind, (#[trigger] c.edges[i]).cursor);
        key is Some && q.lower < key->0 < q.upper
    }) by {
        if found.len() <= q.size {
            assert(page[i] == found[i]);
        } else if q.ascending {
            assert(page[i] == found[i]);
        } else {
            assert(page[i] == found[i + (found.len() - q.size)]);
        }
    }
}

/// A request with both `first` and `last` is refused, whatever else it
/// holds and whatever the store holds.
pub proof fn lemma_both_directions<T>(kind: NodeKind, rows: Seq<Row<T>>, args: PageArgs)
    requires
        args.first is Some,
        args.last is Some,
    ensures
        plan_spec(kind, args) == Err::<RangeQuery, ClientInputError>(
            ClientInputError::BothDirections,
        ),
        connection_spec(kind, rows, args) == Err::<ConnectionView<T>, ClientInputError>(
            ClientInputError::BothDirections,
        ),
{
}

/// Over an empty store every request that is not refused returns no edge,
/// no cursor, and both flags unset.
pub proof fn lemma_empty_store<T>(kind: NodeKind, args: PageArgs)
    ensures
        match connection_spec(kind, Seq::<Row<T>>::empty(), args) {
            Ok(c) => {
                &&& c.edges.len() == 0
                &&& !c.page_info.has_next_page
                &&& !c.page_info.has_previous_page
                &&& c.page_info.start_cursor is None
                &&& c.page_info.end_cursor is None
            },
            Err(fault) => plan_spec(kind, args) == Err::<RangeQuery, ClientInputError>(fault),
        },
{
    if plan_spec(kind, args) is Ok {
        let q = plan_spec(kind, args)->Ok_0;
        lemma_hits_within(Seq::<Row<T>>::empty(), q);
        lemma_page_exact(Seq::<Row<T>>::empty(), q);
    }
}

/// An `after` cursor without the tag of the kind counts as no cursor: the
/// request is answered as the same request without `after`.
pub proof fn lemma_untagged_after<T>(kind: NodeKind, rows: Seq<Row<T>>, args: PageArgs)
    requires
        args.after is Some,
        !kind.tag().is_prefix_of(args.after->0),
    ensures
        plan_spec(kind, args) == plan_spec(kind, without_after(args)),
        connection_spec(kind, rows, args) == connection_spec(kind, rows, without_after(args)),
{
}

/// A `before` cursor without the tag of the kind counts as no cursor.
pub proof fn lemma_untagged_before<T>(kind: NodeKind, rows: Seq<Row<T>>, args: PageArgs)
    requires
        args.before is Some,
        !kind.tag().is_prefix_of(args.before->0),
    ensures
        plan_spec(kind, args) == plan_spec(kind, without_before(args)),
        connection_spec(kind, rows, args) == connection_spec(kind, rows, without_before(args)),
{
}

/// Where no row lies in the range, no row is in range.
proof fn lemma_hits_none<T>(rows: Seq<Row<T>>, q: RangeQuery)
    requires
        forall|i: int| 0 <= i < rows.len() ==> !(q.lower < (#[trigger] rows[i]).key < q.upper),
    ensures
        hits(rows, q) == Seq::<Row<T>>::empty(),
    decreases rows.len(),
{
    reveal(Seq::filter);
    if rows.len() > 0 {
        let front = rows.drop_last();
        assert forall|i: int| 0 <= i < front.len() implies !(q.lower < (#[trigger] front[i]).key
            < q.upper) by {
            assert(front[i] == rows[i]);
        }
        lemma_hits_none(front, q);
        assert(rows =~= front.push(rows.last()));
        lemma_hits_push(front, rows.last(), q);
        assert(!(q.lower < rows[rows.len() - 1].key < q.upper));
    } else {
        assert(hits(rows, q) =~= Seq::<Row<T>>::empty());
    }
}

/// The rows in a range within the range of `q` are those among the rows in
/// range of `q`.
proof fn lemma_hits_narrow<T>(rows: Seq<Row<T>>, q: RangeQuery, inner: RangeQuery)
    requires
        q.lower <= inner.lower,
        inner.upper <= q.upper,
    ensures
        hits(rows, inner) == hits(hits(rows, q), inner),
    decreases rows.len(),
{
    reveal(Seq::filter);
    if rows.len() > 0 {
        let front = rows.drop_last();
        lemma_hits_narrow(front, q, inner);
        assert(rows =~= front.push(rows.last()));
        lemma_hits_push(front, rows.last(), q);
        lemma_hits_push(front, rows.last(), inner);
        lemma_hits_push(hits(front, q), rows.last(), inner);
    } else {
        assert(hits(rows, q) =~= rows);
    }
}

/// Among ascending rows below the upper bound, the rows above the key of
/// row `m - 1` are the rows from `m` on.
proof fn lemma_hits_above<T>(found: Seq<Row<T>>, m: int, q: RangeQuery)
    requires
        ascending(found),
        0 < m <= found.len(),
        q.lower == found[m - 1].key,
        forall|i: int| 0 <= i < found.len() ==> (#[trigger] found[i]).key < q.upper,
    ensures
        hits(found, q) == found.skip(m),
    decreases found.len(),
{
    if found.len() == m {
        assert forall|i: int| 0 <= i < found.len() implies !(q.lower < (#[trigger] found[i]).key
            < q.upper) by {
            if i < m - 1 {
                assert(found[i].key < found[m - 1].key);
            }
        }
        lemma_hits_none(found, q);
        assert(found.skip(m) =~= Seq::<Row<T>>::empty());
    } else {
        let front = found.drop_last();
        assert(ascending(front)) by {
            assert forall|i: int| 0 <= i < front.len() implies valid_key(
                #[trigger] front[i].key,
            ) by {
                assert(front[i] == found[i]);
            }
            assert forall|i: int, j: int| 0 <= i < j < front.len() implies front[i].key
                < front[j].key by {
                assert(front[i] == found[i] && front[j] == found[j]);
            }
        }
        assert(front[m - 1] == found[m - 1]);
        assert forall|i: int| 0 <= i < front.len() implies (#[trigger] front[i]).key
            < q.upper by {
            assert(front[i] == found[i]);
        }
        lemma_hits_above(front, m, q);
        assert(found =~= front.push(found.last()));
        lemma_hits_push(front, found.last(), q);
        assert(found[m - 1].key < found[found.len() - 1].key);
        assert(found.skip(m) =~= front.skip(m).push(found.last()));
    }
}

/// Among ascending rows above the lower bound, the rows below the key of
/// row `m` are the rows before `m`.
proof fn lemma_hits_below<T>(found: Seq<Row<T>>, m: int, q: RangeQuery)
    requires
        ascending(found),
        0 <= m < found.len(),
        q.upper == found[m].key,
        forall|i: int| 0 <= i < found.len() ==> q.lower < (#[trigger] found[i]).key,
    ensures
        hits(found, q) == found.take(m),
    decreases found.len(),
{
    let front = found.drop_last();
    assert(found =~= front.push(found.last()));
    lemma_hits_push(front, found.last(), q);
    assert(found[m].key <= found[found.len() - 1].key) by {
        if m < found.len() - 1 {
            assert(found[m].key < found[found.len() - 1].key);
        }
    }
    assert forall|i: int| 0 <= i < front.len() implies q.lower < (#[trigger] front[i]).key by {
        assert(front[i] == found[i]);
    }
    if found.len() - 1 == m {
        assert forall|i: int| 0 <= i < front.len() implies q.lower < (#[trigger] front[i]).key
            < q.upper by {
            assert(front[i] == found[i]);
            assert(found[i].key < found[m].key);
        }
        lemma_hits_all(front, q);
        assert(found.take(m) =~= front);
    } else {
        assert(ascending(front)) by {
            assert forall|i: int| 0 <= i < front.len() implies valid_key(
                #[trigger] front[i].key,
            ) by {
                assert(front[i] == found[i]);
            }
            assert forall|i: int, j: int| 0 <= i < j < front.len() implies front[i].key
                < front[j].key by {
                assert(front[i] == found[i] && front[j] == found[j]);
            }
        }
        assert(front[m] == found[m]);
        lemma_hits_below(front, m, q);
        assert(found.take(m) =~= front.take(m));
    }
}

/// Paging forward resumes where the page ends. After a page that holds an
/// edge, the same request with the end cursor of the page as `after`
/// returns the rows in range that follow the page, and says exactly whether
/// more follow.
pub proof fn lemma_resume_after<T>(kind: NodeKind, rows: Seq<Row<T>>, args: PageArgs)
    requires
        ascending(rows),
        args.last is None,
        connection_spec(kind, rows, args) is Ok,
        connection_spec(kind, rows, args)->Ok_0.edges.len() > 0,
    ensures
        ({
            let q = plan_spec(kind, args)->Ok_0;
            let found = hits(rows, q);
            let page = connection_spec(kind, rows, args)->Ok_0;
            let rest = found.skip(page.edges.len() as int);
            let next = connection_spec(kind, rows, with_after(args, page.page_info.end_cursor));
            &&& next is Ok
            &&& next->Ok_0.edges == edges_of(kind, window(rest, q))
            &&& next->Ok_0.page_info.has_next_page == (rest.len() > q.size)
        }),
{
    let q = plan_spec(kind, args)->Ok_0;
    let found = hits(rows, q);
    let page = window(found, q);
    lemma_connection_exact(kind, rows, args);
    lemma_hits_within(rows, q);
    let n = page.len() as int;
    assert(page.last() == found[n - 1]);
    let k = found[n - 1].key;
    lemma_decode_encode(kind, k);
    let resumed = with_after(args, Some(encode_spec(kind, k)));
    let inner = plan_spec(kind, resumed)->Ok_0;
    assert(inner == RangeQuery { lower: k, upper: q.upper, size: q.size, ascending: true });
    lemma_hits_narrow(rows, q, inner);
    lemma_hits_above(found, n, inner);
    lemma_connection_exact(kind, rows, resumed);
    assert(window(found.skip(n), inner) == window(found.skip(n), q));
}

/// Paging backward resumes where the page starts. After a page that holds
/// an edge, the same request with the start cursor of the page as `before`
/// returns the rows in range that precede the page, and says exactly
/// whether more precede.
pub proof fn lemma_resume_before<T>(kind: NodeKind, rows: Seq<Row<T>>, args: PageArgs)
    requires
        ascending(rows),
        args.last is Some,
        connection_spec(kind, rows, args) is Ok,
        connection_spec(kind, rows, args)->Ok_0.edges.len() > 0,
    ensures
        ({
            let q = plan_spec(kind, args)->Ok_0;
            let found = hits(rows, q);
            let page = connection_spec(kind, rows, args)->Ok_0;
            let rest = found.take(found.len() - page.edges.len());
            let next = connection_spec(kind, rows, with_before(args, page.page_info.start_cursor));
            &&& next is Ok
            &&& next->Ok_0.edges == edges_of(kind, window(rest, q))
            &&& next->Ok_0.page_info.has_previous_page == (rest.len() > q.size)
        }),
{
    let q = plan_spec(kind, args)->Ok_0;
    let found = hits(rows, q);
    let page = window(found, q);
    lemma_connection_exact(kind, rows, args);
    lemma_hits_within(rows, q);
    let n = page.len() as int;
    let m = found.len() - n;
    assert(page.first() == found[m]);
    let k = found[m].key;
    lemma_decode_encode(kind, k);
    let resumed = with_before(args, Some(encode_spec(kind, k)));
    let inner = plan_spec(kind, resumed)->Ok_0;
    assert(inner == RangeQuery { lower: q.lower, upper: k, size: q.size, ascending: false });
    lemma_hits_narrow(rows, q, inner);
    lemma_hits_below(found, m, inner);
    lemma_connection_exact(kind, rows, resumed);
    assert(window(found.take(m), inner) == window(found.take(m), q));
}

} // verus!

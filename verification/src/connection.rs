//! Connections: the edges of one page and what lies beyond it.

use crate::cursor::{encode, encode_spec, NodeKind};
use crate::error::{ClientInputError, PageError, StorageError};
use crate::request::{plan, plan_spec, text_of, PageArgs, PageRequest, RangeQuery};
use crate::store::{borrowed, fetch_spec, Row, Store};
use vstd::prelude::*;

verus! {

/// An entity on a page, with the cursor that stands for its position.
#[derive(Debug)]
pub struct Edge<T> {
    pub node: T,
    pub cursor: String,
}

/// An edge with its cursor as a text.
pub struct EdgeView<T> {
    pub node: T,
    pub cursor: Seq<char>,
}

impl<T> View for Edge<T> {
    type V = EdgeView<T>;

    open spec fn view(&self) -> EdgeView<T> {
        EdgeView { node: self.node, cursor: self.cursor@ }
    }
}

/// What lies around a page.
#[derive(Debug)]
pub struct PageInfo {
    pub has_previous_page: bool,
    pub has_next_page: bool,
    pub start_cursor: Option<String>,
    pub end_cursor: Option<String>,
}

/// Page information with its cursors as texts.
pub struct PageInfoView {
    pub has_previous_page: bool,
    pub has_next_page: bool,
    pub start_cursor: Option<Seq<char>>,
    pub end_cursor: Option<Seq<char>>,
}

impl View for PageInfo {
    type V = PageInfoView;

    open spec fn view(&self) -> PageInfoView {
        PageInfoView {
            has_previous_page: self.has_previous_page,
            has_next_page: self.has_next_page,
            start_cursor: text_of(self.start_cursor),
            end_cursor: text_of(self.end_cursor),
        }
    }
}

/// One page of entities in ascending key order, with its page information.
#[derive(Debug)]
pub struct Connection<T> {
    pub edges: Vec<Edge<T>>,
    pub page_info: PageInfo,
}

/// A connection with its cursors as texts.
pub struct ConnectionView<T> {
    pub edges: Seq<EdgeView<T>>,
    pub page_info: PageInfoView,
}

impl<T> View for Connection<T> {
    type V = ConnectionView<T>;

    open spec fn view(&self) -> ConnectionView<T> {
        ConnectionView {
            edges: self.edges@.map_values(|e: Edge<T>| e@),
            page_info: self.page_info@,
        }
    }
}

/// The rows of the page among the rows fetched for `q`: the first `size` of
/// them, turned round where they were fetched by descending key.
pub open spec fn page_rows<T>(q: RangeQuery, fetched: Seq<Row<T>>) -> Seq<Row<T>> {
    let kept = if fetched.len() <= q.size {
        fetched
    } else {
        fetched.take(q.size as int)
    };
    if q.ascending {
        kept
    } else {
        kept.reverse()
    }
}

/// The edge of a row.
pub open spec fn edge_of<T>(kind: NodeKind, row: Row<T>) -> EdgeView<T> {
    EdgeView { node: row.node, cursor: encode_spec(kind, row.key) }
}

/// The edges of some rows, in their order.
pub open spec fn edges_of<T>(kind: NodeKind, rows: Seq<Row<T>>) -> Seq<EdgeView<T>> {
    rows.map_values(|r: Row<T>| edge_of(kind, r))
}

/// The connection for the rows fetched for `q`. A row beyond the page size
/// is not on the page: it shows that the page has a successor, for a forward
/// query, or a predecessor, for a backward one.
pub open spec fn assemble_spec<T>(
    kind: NodeKind,
    q: RangeQuery,
    fetched: Seq<Row<T>>,
) -> ConnectionView<T> {
    let page = page_rows(q, fetched);
    let more = fetched.len() > q.size;
    ConnectionView {
        edges: edges_of(kind, page),
        page_info: PageInfoView {
            has_previous_page: !q.ascending && more,
            has_next_page: q.ascending && more,
            start_cursor: if page.len() > 0 {
                Some(encode_spec(kind, page.first().key))
            } else {
                None
            },
            end_cursor: if page.len() > 0 {
                Some(encode_spec(kind, page.last().key))
            } else {
                None
            },
        },
    }
}

/// The edges of `rows`, last row first.
fn edges_from_last<T>(kind: NodeKind, rows: Vec<Row<T>>) -> (edges: Vec<Edge<T>>)
    ensures
        edges@.map_values(|e: Edge<T>| e@) == edges_of(kind, rows@.reverse()),
{
    let ghost all = rows@;
    let mut rows = rows;
    let mut edges: Vec<Edge<T>> = Vec::new();
    while rows.len() > 0
        invariant
            rows@ == all.take(rows@.len() as int),
            rows@.len() <= all.len(),
            edges@.len() == all.len() - rows@.len(),
            forall|i: int|
                0 <= i < edges@.len() ==> (#[trigger] edges@[i])@ == edge_of(
                    kind,
                    all[all.len() - 1 - i],
                ),
        decreases rows@.len(),
    {
        let ghost before = rows@;
        let row = rows.pop().unwrap();
        assert(row == all[before.len() - 1]);
        assert(rows@ =~= all.take(rows@.len() as int));
        let cursor = encode(kind, row.key);
        edges.push(Edge { node: row.node, cursor });
    }
    assert(edges@.map_values(|e: Edge<T>| e@) =~= edges_of(kind, all.reverse()));
    edges
}

/// The elements of `v`, last first.
fn reversed<T>(v: Vec<T>) -> (r: Vec<T>)
    ensures
        r@ == v@.reverse(),
{
    let ghost all = v@;
    let mut v = v;
    let mut r: Vec<T> = Vec::new();
    while v.len() > 0
        invariant
            v@ == all.take(v@.len() as int),
            v@.len() <= all.len(),
            r@.len() == all.len() - v@.len(),
            forall|i: int| 0 <= i < r@.len() ==> #[trigger] r@[i] == all[all.len() - 1 - i],
        decreases v@.len(),
    {
        let ghost before = v@;
        let x = v.pop().unwrap();
        assert(x == all[before.len() - 1]);
        assert(v@ =~= all.take(v@.len() as int));
        r.push(x);
    }
    assert(r@ =~= all.reverse());
    r
}

/// Builds the connection from the rows that the store returned for `q`.
///
/// The rows are taken as they come: the first `size` of them make the page,
/// and a row beyond them sets the flag of the direction of `q`.
pub fn assemble<T>(kind: NodeKind, q: &RangeQuery, rows: Vec<Row<T>>) -> (c: Connection<T>)
    ensures
        c@ == assemble_spec(kind, *q, rows@),
{
    let ghost fetched = rows@;
    let mut rows = rows;
    let size = q.size as usize;
    let more = rows.len() > size;
    if more {
        rows.truncate(size);
    }
    let ghost kept = rows@;
    let edges = if q.ascending {
        let turned = reversed(rows);
        assert(turned@.reverse() =~= kept);
        edges_from_last(kind, turned)
    } else {
        edges_from_last(kind, rows)
    };
    let ghost page = page_rows(*q, fetched);
    assert(edges@.map_values(|e: Edge<T>| e@) == edges_of(kind, page));
    let n = edges.len();
    assert(n == page.len());
    let start_cursor = if n > 0 {
        assert(edges@.map_values(|e: Edge<T>| e@)[0] == edges@[0]@);
        Some(edges[0].cursor.clone())
    } else {
        None
    };
    let end_cursor = if n > 0 {
        assert(edges@.map_values(|e: Edge<T>| e@)[n - 1] == edges@[n - 1]@);
        Some(edges[n - 1].cursor.clone())
    } else {
        None
    };
    Connection {
        edges,
        page_info: PageInfo {
            has_previous_page: !q.ascending && more,
            has_next_page: q.ascending && more,
            start_cursor,
            end_cursor,
        },
    }
}

/// The end of a page request whose fetch the caller has run: the connection
/// for the rows that came back, or the storage failure, handed on as it is.
pub fn complete<T>(
    kind: NodeKind,
    q: &RangeQuery,
    outcome: Result<Vec<Row<T>>, StorageError>,
) -> (r: Result<Connection<T>, PageError>)
    ensures
        match outcome {
            Ok(rows) => r is Ok && r->Ok_0@ == assemble_spec(kind, *q, rows@),
            Err(failure) => r == Err::<Connection<T>, PageError>(PageError::Storage(failure)),
        },
{
    match outcome {
        Ok(rows) => Ok(assemble(kind, q, rows)),
        Err(failure) => Err(PageError::from(failure)),
    }
}

/// The answer to a page request over a store that holds `rows`: the fault in
/// the request, or the connection for what the planned query fetches.
pub open spec fn connection_spec<T>(kind: NodeKind, rows: Seq<Row<T>>, args: PageArgs) -> Result<
    ConnectionView<T>,
    ClientInputError,
> {
    match plan_spec(kind, args) {
        Ok(q) => Ok(assemble_spec(kind, q, fetch_spec(rows, q))),
        Err(fault) => Err(fault),
    }
}

/// Answers a page request from an in-memory store: plans the query, runs it
/// once, and assembles the connection. A faulty request fetches nothing.
pub fn connection<'a, T>(kind: NodeKind, store: &'a Store<T>, request: &PageRequest) -> (r: Result<
    Connection<&'a T>,
    ClientInputError,
>)
    ensures
        match r {
            Ok(c) => connection_spec(kind, borrowed(store@), request@) == Ok::<
                ConnectionView<&'a T>,
                ClientInputError,
            >(c@),
            Err(fault) => connection_spec(kind, borrowed(store@), request@) == Err::<
                ConnectionView<&'a T>,
                ClientInputError,
            >(fault),
        },
{
    match plan(kind, request) {
        Ok(q) => {
            let rows = store.fetch_range(&q);
            Ok(assemble(kind, &q, rows))
        },
        Err(fault) => Err(fault),
    }
}

} // verus!

//! Page requests and the range query each one asks for.

use crate::cursor::{decode, decode_spec, NodeKind};
use crate::error::ClientInputError;
use vstd::prelude::*;

verus! {

/// The page size of a request that names none.
pub const DEFAULT_PAGE_SIZE: u32 = 10;

/// The exclusive lower bound of a request without an `after` cursor. Every
/// key lies above it.
pub const LOWER_SENTINEL: i32 = 0;

/// The exclusive upper bound of a request without a `before` cursor. Every
/// key lies below it.
pub const UPPER_SENTINEL: i32 = 0x7fff_ffff;

/// Whether `key` can identify an entity: it lies strictly between the two
/// sentinels.
pub open spec fn valid_key(key: i32) -> bool {
    LOWER_SENTINEL < key < UPPER_SENTINEL
}

/// The four pagination arguments of a connection field.
#[derive(Debug)]
pub struct PageRequest {
    pub first: Option<i32>,
    pub after: Option<String>,
    pub last: Option<i32>,
    pub before: Option<String>,
}

/// A page request with its cursors as texts.
pub struct PageArgs {
    pub first: Option<i32>,
    pub after: Option<Seq<char>>,
    pub last: Option<i32>,
    pub before: Option<Seq<char>>,
}

pub open spec fn text_of(s: Option<String>) -> Option<Seq<char>> {
    match s {
        Some(s) => Some(s@),
        None => None,
    }
}

impl View for PageRequest {
    type V = PageArgs;

    open spec fn view(&self) -> PageArgs {
        PageArgs {
            first: self.first,
            after: text_of(self.after),
            last: self.last,
            before: text_of(self.before),
        }
    }
}

/// One bounded, ordered fetch: the entities whose key lies strictly between
/// `lower` and `upper`, by ascending or by descending key, at most
/// `size + 1` of them. The one entity beyond the page size shows whether the
/// page is followed by another.
#[derive(Clone, Copy, Debug, PartialEq, Eq, Structural)]
pub struct RangeQuery {
    pub lower: i32,
    pub upper: i32,
    pub size: u32,
    pub ascending: bool,
}

impl RangeQuery {
    /// The number of entities to ask the store for.
    pub open spec fn limit_spec(self) -> int {
        self.size + 1
    }

    /// The number of entities to ask the store for: the page size and one
    /// more.
    pub fn limit(&self) -> (n: i64)
        ensures
            n == self.limit_spec(),
    {
        self.size as i64 + 1
    }

    /// The text of the SQL clauses for this query.
    pub open spec fn clause_text(self) -> Seq<char> {
        if self.ascending {
            "WHERE id > $1 AND id < $2 ORDER BY id ASC LIMIT $3"@
        } else {
            "WHERE id > $1 AND id < $2 ORDER BY id DESC LIMIT $3"@
        }
    }

    /// The clauses that run this query in SQL on a table keyed by `id`:
    /// the two bounds and the limit are the parameters 1, 2 and 3, and the
    /// order is that of the query.
    pub fn range_clause(&self) -> (sql: &'static str)
        ensures
            sql@ == self.clause_text(),
    {
        if self.ascending {
            "WHERE id > $1 AND id < $2 ORDER BY id ASC LIMIT $3"
        } else {
            "WHERE id > $1 AND id < $2 ORDER BY id DESC LIMIT $3"
        }
    }
}

/// The key bound that an optional cursor stands for, `None` where the cursor
/// is missing or lacks the tag of `kind`.
pub open spec fn bound_spec(kind: NodeKind, cursor: Option<Seq<char>>) -> Result<
    Option<i32>,
    ClientInputError,
> {
    match cursor {
        Some(text) => decode_spec(kind, text),
        None => Ok(None),
    }
}

/// The page size that the two counts ask for.
pub open spec fn size_spec(first: Option<i32>, last: Option<i32>) -> u32 {
    match (first, last) {
        (Some(n), _) => n as u32,
        (None, Some(n)) => n as u32,
        (None, None) => DEFAULT_PAGE_SIZE,
    }
}

/// The range query of a page request, or the fault in the request.
///
/// `first` and `last` exclude each other, and neither may be negative. A
/// cursor with the tag of `kind` must hold a key; a cursor without the tag
/// counts as missing. A missing `after` stands for the lower sentinel, a
/// missing `before` for the upper one. A request with `last` pages
/// backward, every other request forward; the page size is the count given,
/// or the default.
pub open spec fn plan_spec(kind: NodeKind, args: PageArgs) -> Result<RangeQuery, ClientInputError> {
    if args.first is Some && args.last is Some {
        Err(ClientInputError::BothDirections)
    } else if (args.first is Some && args.first->0 < 0) || (args.last is Some && args.last->0
        < 0) {
        Err(ClientInputError::NegativeCount)
    } else {
        match (bound_spec(kind, args.after), bound_spec(kind, args.before)) {
            (Ok(after), Ok(before)) => Ok(
                RangeQuery {
                    lower: match after {
                        Some(key) => key,
                        None => LOWER_SENTINEL,
                    },
                    upper: match before {
                        Some(key) => key,
                        None => UPPER_SENTINEL,
                    },
                    size: size_spec(args.first, args.last),
                    ascending: args.last is None,
                },
            ),
            _ => Err(ClientInputError::MalformedCursor),
        }
    }
}

/// The key bound that an optional cursor stands for.
fn bound(kind: NodeKind, cursor: &Option<String>) -> (r: Result<Option<i32>, ClientInputError>)
    ensures
        r == bound_spec(kind, text_of(*cursor)),
{
    match cursor {
        Some(text) => decode(kind, text.as_str()),
        None => Ok(None),
    }
}

/// Plans the fetch for a page request, or reports the fault in the request.
pub fn plan(kind: NodeKind, request: &PageRequest) -> (r: Result<RangeQuery, ClientInputError>)
    ensures
        r == plan_spec(kind, request@),
        request.first is Some && request.last is Some ==> r == Err::<RangeQuery, ClientInputError>(
            ClientInputError::BothDirections,
        ),
{
    let size: u32 = match (request.first, request.last) {
        (Some(_), Some(_)) => {
            return Err(ClientInputError::BothDirections);
        },
        (Some(n), None) => {
            if n < 0 {
                return Err(ClientInputError::NegativeCount);
            }
            n as u32
        },
        (None, Some(n)) => {
            if n < 0 {
                return Err(ClientInputError::NegativeCount);
            }
            n as u32
        },
        (None, None) => DEFAULT_PAGE_SIZE,
    };
    let after = match bound(kind, &request.after) {
        Ok(b) => b,
        Err(_) => {
            return Err(ClientInputError::MalformedCursor);
        },
    };
    let before = match bound(kind, &request.before) {
        Ok(b) => b,
        Err(_) => {
            return Err(ClientInputError::MalformedCursor);
        },
    };
    Ok(
        RangeQuery {
            lower: match after {
                Some(key) => key,
                None => LOWER_SENTINEL,
            },
            upper: match before {
                Some(key) => key,
                None => UPPER_SENTINEL,
            },
            size,
            ascending: request.last.is_none(),
        },
    )
}

} // verus!

//! Rows in key order, and the bounded fetch that a range query asks for.

use crate::request::{valid_key, RangeQuery, LOWER_SENTINEL, UPPER_SENTINEL};
use vstd::prelude::*;

verus! {

/// An entity with the key it is ordered by. The pagination engine reads
/// nothing of the entity but the key.
#[derive(Debug)]
pub struct Row<T> {
    pub key: i32,
    pub node: T,
}

/// The rows with their entities borrowed.
pub open spec fn borrowed<'a, T>(rows: Seq<Row<T>>) -> Seq<Row<&'a T>> {
    rows.map_values(|r: Row<T>| Row { key: r.key, node: &r.node })
}

/// Whether the keys are valid and strictly ascending, so that no key occurs
/// twice.
pub open spec fn ascending<T>(rows: Seq<Row<T>>) -> bool {
    &&& forall|i: int| 0 <= i < rows.len() ==> valid_key(#[trigger] rows[i].key)
    &&& forall|i: int, j: int| 0 <= i < j < rows.len() ==> rows[i].key < rows[j].key
}

/// The rows a range query selects: those with a key strictly between its
/// bounds.
pub open spec fn selects<T>(q: RangeQuery) -> spec_fn(Row<T>) -> bool {
    |r: Row<T>| q.lower < r.key < q.upper
}

/// The rows of `rows` that lie in the range of `q`, in their order in `rows`.
pub open spec fn hits<T>(rows: Seq<Row<T>>, q: RangeQuery) -> Seq<Row<T>> {
    rows.filter(selects(q))
}

/// What a store holding `rows` returns for `q`: the rows in range, from the
/// first on for an ascending query and from the last back for a descending
/// one, cut off after `size + 1` rows.
pub open spec fn fetch_spec<T>(rows: Seq<Row<T>>, q: RangeQuery) -> Seq<Row<T>> {
    let found = hits(rows, q);
    let count = if found.len() <= q.limit_spec() { found.len() as int } else { q.limit_spec() };
    if q.ascending {
        found.take(count)
    } else {
        found.reverse().take(count)
    }
}

/// The key a store holding `rows` gives to the next entity it creates: one
/// above the last key, or the first key above the lower sentinel.
pub open spec fn next_key<T>(rows: Seq<Row<T>>) -> int {
    if rows.len() == 0 {
        LOWER_SENTINEL + 1
    } else {
        rows.last().key + 1
    }
}

proof fn lemma_hits_empty<T>(q: RangeQuery)
    ensures
        hits(Seq::<Row<T>>::empty(), q) == Seq::<Row<T>>::empty(),
{
    reveal(Seq::filter);
}

/// Appending a row appends it to the rows in range, if it lies in range.
pub proof fn lemma_hits_push<T>(rows: Seq<Row<T>>, r: Row<T>, q: RangeQuery)
    ensures
        hits(rows.push(r), q) == if q.lower < r.key < q.upper {
            hits(rows, q).push(r)
        } else {
            hits(rows, q)
        },
{
    reveal(Seq::filter);
    assert(rows.push(r).drop_last() =~= rows);
}

/// The rows in range of a concatenation are those of its parts.
pub proof fn lemma_hits_concat<T>(a: Seq<Row<T>>, b: Seq<Row<T>>, q: RangeQuery)
    ensures
        hits(a + b, q) == hits(a, q) + hits(b, q),
{
    Seq::filter_distributes_over_add(a, b, selects(q));
}

proof fn lemma_reverse_concat<A>(a: Seq<A>, b: Seq<A>)
    ensures
        (a + b).reverse() == b.reverse() + a.reverse(),
{
    assert((a + b).reverse() =~= b.reverse() + a.reverse());
}

/// An in-memory store of entities in key order. Keys are valid and strictly
/// ascending: an entity can only be added above the last key.
pub struct Store<T> {
    rows: Vec<Row<T>>,
}

impl<T> View for Store<T> {
    type V = Seq<Row<T>>;

    closed spec fn view(&self) -> Seq<Row<T>> {
        self.rows@
    }
}

impl<T> Store<T> {
    #[verifier::type_invariant]
    spec fn inv(self) -> bool {
        ascending(self.rows@)
    }

    /// A store without entities.
    pub fn new() -> (store: Self)
        ensures
            store@ == Seq::<Row<T>>::empty(),
    {
        Store { rows: Vec::new() }
    }

    /// The number of entities.
    pub fn len(&self) -> (n: usize)
        ensures
            n == self@.len(),
    {
        self.rows.len()
    }

    /// The rows in key order.
    pub fn rows(&self) -> (rows: &Vec<Row<T>>)
        ensures
            rows@ == self@,
            ascending(self@),
    {
        proof {
            use_type_invariant(self);
        }
        &self.rows
    }

    /// Appends a row whose key lies above every key in the store. The rows
    /// leave the store while the vector grows, so that the store holds
    /// ascending rows at every moment.
    fn append(&mut self, row: Row<T>)
        requires
            valid_key(row.key),
            next_key(old(self)@) <= row.key,
        ensures
            final(self)@ == old(self)@.push(row),
    {
        proof {
            use_type_invariant(&*self);
        }
        let mut rows: Vec<Row<T>> = Vec::new();
        core::mem::swap(&mut rows, &mut self.rows);
        rows.push(row);
        core::mem::swap(&mut rows, &mut self.rows);
    }

    /// Adds an entity under `key`, if `key` is valid and lies above every
    /// key in the store; says whether it did.
    pub fn insert(&mut self, key: i32, node: T) -> (added: bool)
        ensures
            added == (valid_key(key) && next_key(old(self)@) <= key),
            added ==> final(self)@ == old(self)@.push(Row { key, node }),
            !added ==> final(self)@ == old(self)@,
            ascending(final(self)@),
    {
        proof {
            use_type_invariant(&*self);
        }
        let n = self.rows.len();
        if key <= LOWER_SENTINEL || key >= UPPER_SENTINEL {
            return false;
        }
        if n > 0 && self.rows[n - 1].key >= key {
            return false;
        }
        self.append(Row { key, node });
        true
    }

    /// Adds an entity under the next key and returns that key; `None`, with
    /// the store unchanged, where no valid key is left.
    pub fn create(&mut self, node: T) -> (key: Option<i32>)
        ensures
            match key {
                Some(k) => k == next_key(old(self)@) && final(self)@ == old(self)@.push(
                    Row { key: k, node },
                ),
                None => next_key(old(self)@) == UPPER_SENTINEL && final(self)@ == old(self)@,
            },
            ascending(final(self)@),
    {
        proof {
            use_type_invariant(&*self);
        }
        let n = self.rows.len();
        let key: i32 = if n == 0 {
            LOWER_SENTINEL + 1
        } else {
            self.rows[n - 1].key + 1
        };
        if key == UPPER_SENTINEL {
            return None;
        }
        self.append(Row { key, node });
        Some(key)
    }

    /// The entity with key `key`, if the store holds one.
    pub fn get(&self, key: i32) -> (found: Option<&T>)
        ensures
            found is None <==> forall|i: int|
                0 <= i < self@.len() ==> (#[trigger] self@[i]).key != key,
            forall|i: int|
                0 <= i < self@.len() && (#[trigger] self@[i]).key == key ==> found == Some(
                    &self@[i].node,
                ),
    {
        proof {
            use_type_invariant(self);
        }
        let n = self.rows.len();
        let mut i: usize = 0;
        while i < n
            invariant
                i <= n,
                n == self.rows.len(),
                ascending(self.rows@),
                forall|j: int| 0 <= j < i ==> (#[trigger] self.rows@[j]).key != key,
            decreases n - i,
        {
            if self.rows[i].key == key {
                assert(self@[i as int].key == key);
                return Some(&self.rows[i].node);
            }
            i += 1;
        }
        None
    }

    /// Runs a range query: the entities with a key strictly between the
    /// bounds, in the order asked for, at most `size + 1` of them.
    pub fn fetch_range<'a>(&'a self, q: &RangeQuery) -> (out: Vec<Row<&'a T>>)
        ensures
            out@ == fetch_spec(borrowed(self@), *q),
            ascending(self@),
    {
        proof {
            use_type_invariant(self);
        }
        let ghost src = borrowed(self.rows@);
        let limit: u64 = q.size as u64 + 1;
        let n = self.rows.len();
        let mut out: Vec<Row<&'a T>> = Vec::new();
        if q.ascending {
            let mut i: usize = 0;
            proof {
                assert(src.take(0) =~= Seq::<Row<&'a T>>::empty());
                lemma_hits_empty::<&'a T>(*q);
            }
            while i < n && (out.len() as u64) < limit
                invariant
                    i <= n,
                    n == self.rows.len(),
                    src == borrowed(self.rows@),
                    limit == q.limit_spec(),
                    out@ == hits(src.take(i as int), *q),
                    out@.len() <= limit,
                decreases n - i,
            {
                let r = &self.rows[i];
                proof {
                    assert(src.take(i + 1) =~= src.take(i as int).push(src[i as int]));
                    lemma_hits_push(src.take(i as int), src[i as int], *q);
                }
                if q.lower < r.key && r.key < q.upper {
                    out.push(Row { key: r.key, node: &r.node });
                }
                i += 1;
            }
            proof {
                assert(src =~= src.take(i as int) + src.skip(i as int));
                lemma_hits_concat(src.take(i as int), src.skip(i as int), *q);
                if i == n {
                    assert(src.skip(i as int) =~= Seq::<Row<&'a T>>::empty());
                    lemma_hits_empty::<&'a T>(*q);
                }
                assert(out@ =~= fetch_spec(src, *q));
            }
        } else {
            let mut i: usize = n;
            proof {
                assert(src.skip(n as int) =~= Seq::<Row<&'a T>>::empty());
                lemma_hits_empty::<&'a T>(*q);
                assert(Seq::<Row<&'a T>>::empty().reverse() =~= Seq::<Row<&'a T>>::empty());
            }
            while i > 0 && (out.len() as u64) < limit
                invariant
                    i <= n,
                    n == self.rows.len(),
                    src == borrowed(self.rows@),
                    limit == q.limit_spec(),
                    out@ == hits(src.skip(i as int), *q).reverse(),
                    out@.len() <= limit,
                decreases i,
            {
                i -= 1;
                let r = &self.rows[i];
                proof {
                    let one = Seq::<Row<&'a T>>::empty().push(src[i as int]);
                    assert(src.skip(i as int) =~= one + src.skip(i + 1));
                    lemma_hits_concat(one, src.skip(i + 1), *q);
                    lemma_hits_push(Seq::<Row<&'a T>>::empty(), src[i as int], *q);
                    lemma_hits_empty::<&'a T>(*q);
                    lemma_reverse_concat(hits(one, *q), hits(src.skip(i + 1), *q));
                    if q.lower < r.key < q.upper {
                        assert(hits(one, *q).reverse() =~= one);
                        assert(hits(src.skip(i as int), *q).reverse() =~= out@.push(src[i as int]));
                    } else {
                        assert(hits(one, *q).reverse() =~= Seq::<Row<&'a T>>::empty());
                        assert(hits(src.skip(i as int), *q).reverse() =~= out@);
                    }
                }
                if q.lower < r.key && r.key < q.upper {
                    out.push(Row { key: r.key, node: &r.node });
                }
            }
            proof {
                assert(src =~= src.take(i as int) + src.skip(i as int));
                lemma_hits_concat(src.take(i as int), src.skip(i as int), *q);
                lemma_reverse_concat(hits(src.take(i as int), *q), hits(src.skip(i as int), *q));
                if i == 0 {
                    assert(src.take(0) =~= Seq::<Row<&'a T>>::empty());
                    lemma_hits_empty::<&'a T>(*q);
                    assert(Seq::<Row<&'a T>>::empty().reverse() =~= Seq::<Row<&'a T>>::empty());
                }
                assert(out@ =~= fetch_spec(src, *q));
            }
        }
        out
    }
}

} // verus!

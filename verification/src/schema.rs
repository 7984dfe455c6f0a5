//! The query surface: the root objects with their resolvers over an
//! in-memory store, and the type names of the connections.

use crate::connection::{connection, connection_spec, Connection, ConnectionView};
use crate::cursor::{decode, decode_spec, NodeKind};
use crate::error::ClientInputError;
use crate::request::{text_of, PageArgs, PageRequest, UPPER_SENTINEL};
use crate::store::{ascending, borrowed, next_key, Row, Store};
use vstd::prelude::*;

verus! {

impl NodeKind {
    /// The name of the connection type over this kind.
    pub open spec fn connection_type_text(self) -> Seq<char> {
        match self {
            NodeKind::Actor => "ActorConnection"@,
            NodeKind::Post => "PostConnection"@,
        }
    }

    /// The name of the edge type over this kind.
    pub open spec fn edge_type_text(self) -> Seq<char> {
        match self {
            NodeKind::Actor => "ActorConnectionEdge"@,
            NodeKind::Post => "PostConnectionEdge"@,
        }
    }

    /// The name that connections over this kind have in the schema.
    pub fn connection_type_name(self) -> (s: &'static str)
        ensures
            s@ == self.connection_type_text(),
    {
        match self {
            NodeKind::Actor => "ActorConnection",
            NodeKind::Post => "PostConnection",
        }
    }

    /// The name that edges over this kind have in the schema.
    pub fn edge_type_name(self) -> (s: &'static str)
        ensures
            s@ == self.edge_type_text(),
    {
        match self {
            NodeKind::Actor => "ActorConnectionEdge",
            NodeKind::Post => "PostConnectionEdge",
        }
    }
}

/// The schema text that a subgraph publishes: the text that the schema
/// layer rendered from the types registered with it, handed on as it is.
pub fn get_schema(rendered: String) -> (sdl: String)
    ensures
        sdl == rendered,
{
    rendered
}

/// What a subgraph tells a federation gateway about itself.
#[derive(Debug)]
pub struct Service {
    /// The schema of the subgraph in the schema definition language.
    pub sdl: String,
}

/// The root of the read operations.
#[derive(Clone, Copy, Debug)]
pub struct Query;

impl Query {
    /// The enhanced introspection of a federation subgraph: the rendered
    /// schema text as the answer of the service.
    pub fn _service(rendered: String) -> (service: Service)
        ensures
            service.sdl == rendered,
    {
        Service { sdl: get_schema(rendered) }
    }

    /// The entity with key `id`, if the store holds one.
    pub fn actor<T>(store: &Store<T>, id: i32) -> (found: Option<&T>)
        ensures
            found is None <==> forall|i: int|
                0 <= i < store@.len() ==> (#[trigger] store@[i]).key != id,
            forall|i: int|
                0 <= i < store@.len() && (#[trigger] store@[i]).key == id ==> found == Some(
                    &store@[i].node,
                ),
    {
        store.get(id)
    }
}

/// The root of the write operations.
#[derive(Clone, Copy, Debug)]
pub struct Mutation;

impl Mutation {
    /// Adds an entity to the store under the next key and returns that key;
    /// `None`, with the store unchanged, where no valid key is left.
    pub fn create_actor<T>(store: &mut Store<T>, node: T) -> (key: Option<i32>)
        ensures
            match key {
                Some(k) => k == next_key(old(store)@) && final(store)@ == old(store)@.push(
                    Row { key: k, node },
                ),
                None => next_key(old(store)@) == UPPER_SENTINEL && final(store)@ == old(store)@,
            },
            ascending(final(store)@),
    {
        store.create(node)
    }
}

/// The root of the read operations of a schema that names its roots by
/// their place.
#[derive(Clone, Copy, Debug)]
pub struct QueryRoot;

impl QueryRoot {
    /// The enhanced introspection of a federation subgraph: the rendered
    /// schema text as the answer of the service.
    pub fn _service(rendered: String) -> (service: Service)
        ensures
            service.sdl == rendered,
    {
        Query::_service(rendered)
    }

    /// The entity with key `id`, if the store holds one.
    pub fn actor<T>(store: &Store<T>, id: i32) -> (found: Option<&T>)
        ensures
            found is None <==> forall|i: int|
                0 <= i < store@.len() ==> (#[trigger] store@[i]).key != id,
            forall|i: int|
                0 <= i < store@.len() && (#[trigger] store@[i]).key == id ==> found == Some(
                    &store@[i].node,
                ),
    {
        Query::actor(store, id)
    }
}

/// The root of the write operations of a schema that names its roots by
/// their place.
#[derive(Clone, Copy, Debug)]
pub struct MutationRoot;

impl MutationRoot {
    /// Adds an entity to the store under the next key and returns that key;
    /// `None`, with the store unchanged, where no valid key is left.
    pub fn create_actor<T>(store: &mut Store<T>, node: T) -> (key: Option<i32>)
        ensures
            match key {
                Some(k) => k == next_key(old(store)@) && final(store)@ == old(store)@.push(
                    Row { key: k, node },
                ),
                None => next_key(old(store)@) == UPPER_SENTINEL && final(store)@ == old(store)@,
            },
            ascending(final(store)@),
    {
        Mutation::create_actor(store, node)
    }
}

/// Resolves the global identifier of an actor: `Ok(None)` where the
/// identifier lacks the tag of actors or no actor has its key, the actor
/// where one has, and an error where the tag is followed by no key.
pub fn get_actor<'a, T>(store: &'a Store<T>, id: &str) -> (r: Result<Option<&'a T>, ClientInputError>)
    ensures
        match decode_spec(NodeKind::Actor, id@) {
            Err(fault) => r == Err::<Option<&'a T>, ClientInputError>(fault),
            Ok(None) => r == Ok::<Option<&'a T>, ClientInputError>(None),
            Ok(Some(key)) => {
                &&& r is Ok
                &&& r->Ok_0 is None <==> forall|i: int|
                    0 <= i < store@.len() ==> (#[trigger] store@[i]).key != key
                &&& forall|i: int|
                    0 <= i < store@.len() && (#[trigger] store@[i]).key == key ==> r->Ok_0
                        == Some(&store@[i].node)
            },
        },
{
    match decode(NodeKind::Actor, id) {
        Err(fault) => Err(fault),
        Ok(None) => Ok(None),
        Ok(Some(key)) => Ok(store.get(key)),
    }
}

/// The arguments of a connection field as a page request.
pub open spec fn args_of(
    first: Option<i32>,
    after: Option<String>,
    last: Option<i32>,
    before: Option<String>,
) -> PageArgs {
    PageArgs { first, after: text_of(after), last, before: text_of(before) }
}

/// A page of the actors in `store`.
pub fn actors_connection<'a, T>(
    store: &'a Store<T>,
    first: Option<i32>,
    after: Option<String>,
    last: Option<i32>,
    before: Option<String>,
) -> (r: Result<Connection<&'a T>, ClientInputError>)
    ensures
        match r {
            Ok(c) => connection_spec(
                NodeKind::Actor,
                borrowed(store@),
                args_of(first, after, last, before),
            ) == Ok::<ConnectionView<&'a T>, ClientInputError>(c@),
            Err(fault) => connection_spec(
                NodeKind::Actor,
                borrowed(store@),
                args_of(first, after, last, before),
            ) == Err::<ConnectionView<&'a T>, ClientInputError>(fault),
        },
{
    let request = PageRequest { first, after, last, before };
    connection(NodeKind::Actor, store, &request)
}

/// A page of the posts in `store`.
pub fn posts_connection<'a, T>(
    store: &'a Store<T>,
    first: Option<i32>,
    after: Option<String>,
    last: Option<i32>,
    before: Option<String>,
) -> (r: Result<Connection<&'a T>, ClientInputError>)
    ensures
        match r {
            Ok(c) => connection_spec(
                NodeKind::Post,
                borrowed(store@),
                args_of(first, after, last, before),
            ) == Ok::<ConnectionView<&'a T>, ClientInputError>(c@),
            Err(fault) => connection_spec(
                NodeKind::Post,
                borrowed(store@),
                args_of(first, after, last, before),
            ) == Err::<ConnectionView<&'a T>, ClientInputError>(fault),
        },
{
    let request = PageRequest { first, after, last, before };
    connection(NodeKind::Post, store, &request)
}

} // verus!

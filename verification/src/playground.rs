//! The page of the interactive query editor.

use crate::request::text_of;
use vstd::prelude::*;

verus! {

/// The address under which queries are served.
pub open spec fn graphql_endpoint() -> Seq<char> {
    "/graphql"@
}

/// The media type of the editor page.
pub open spec fn html_media_type() -> Seq<char> {
    "text/html; charset=utf-8"@
}

/// The page that juniper's `graphiql_source` writes for a query endpoint
/// and an optional subscriptions endpoint.
pub uninterp spec fn graphiql_page(endpoint: Seq<char>, subscriptions: Option<Seq<char>>) -> Seq<
    char,
>;

/// Calls `juniper::http::graphiql::graphiql_source`, which fills the two
/// endpoints into a fixed page. Nothing is claimed of the page but that it
/// depends on the two endpoints alone.
#[verifier::external_body]
fn graphiql_source(endpoint: &str, subscriptions: &Option<String>) -> (html: String)
    ensures
        html@ == graphiql_page(endpoint@, text_of(*subscriptions)),
{
    juniper::http::graphiql::graphiql_source(endpoint, subscriptions.as_deref())
}

/// A page to send, with the media type to send it under.
#[derive(Debug)]
pub struct HtmlPage {
    pub content_type: &'static str,
    pub body: String,
}

/// Wraps a page text as an HTML page in UTF-8.
pub fn html_page(body: String) -> (page: HtmlPage)
    ensures
        page.content_type@ == html_media_type(),
        page.body == body,
{
    HtmlPage { content_type: "text/html; charset=utf-8", body }
}

/// The editor page for the query endpoint, without subscriptions.
pub fn graphql_playground() -> (page: HtmlPage)
    ensures
        page.content_type@ == html_media_type(),
        page.body@ == graphiql_page(graphql_endpoint(), None),
{
    let none: Option<String> = None;
    html_page(graphiql_source("/graphql", &none))
}

} // verus!

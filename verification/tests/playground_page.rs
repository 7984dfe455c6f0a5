use relay_paging::playground::{graphql_playground, html_page};

#[test]
fn playground_is_the_editor_page_for_the_query_endpoint() {
    let page = graphql_playground();
    assert_eq!(page.content_type, "text/html; charset=utf-8");
    assert_eq!(page.body, juniper::http::graphiql::graphiql_source("/graphql", None));
    assert_ne!(page.body, "/graphql");
    assert!(page.body.contains("<!DOCTYPE html>"));
    assert!(page.body.contains("var GRAPHQL_URL = '/graphql';"));
    assert!(page.body.contains("var usingSubscriptions = false;"));
    assert!(page.body.contains("var GRAPHQL_SUBSCRIPTIONS_URL = '';"));
}

#[test]
fn html_page_keeps_the_body() {
    let page = html_page("<p>hello</p>".to_string());
    assert_eq!(page.content_type, "text/html; charset=utf-8");
    assert_eq!(page.body, "<p>hello</p>");
}

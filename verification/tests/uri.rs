use ruroonga_client::command_query::CommandQuery;
use ruroonga_client::uri::{RequestURI, URIBase};

#[test]
fn join_inserts_exactly_one_separator() {
    let uri = RequestURI::new("http://localhost:10041/d".to_string(), "status".to_string());
    assert_eq!("http://localhost:10041/d/status", uri.url());
}

#[test]
fn join_keeps_an_existing_separator() {
    let uri = RequestURI::new("http://localhost:10041/d/".to_string(), "status".to_string());
    assert_eq!("http://localhost:10041/d/status", uri.url());
}

#[test]
fn base_builder_carries_the_address_through() {
    let base = URIBase::new().base_uri("localhost".to_string()).build();
    assert_eq!("localhost", base);
}

#[test]
fn full_request_target_from_command() {
    let mut command = CommandQuery::new("table_create".to_string());
    command.set_argument(vec![("name".to_string(), "Sites".to_string())]);
    let base = URIBase::new().base_uri("localhost".to_string()).build();
    let url = RequestURI::new(base, command.encode()).url();
    assert_eq!("localhost/table_create?name=Sites", url);
}

use async_graphql::error::{PathSegment, Pos, ServerError};
use async_graphql::executor::{batch_response, BatchRequest, BatchResponse, Request};
use async_graphql::error::Response;
use async_graphql::query::{Field, FragmentSpread, Selection, SelectionSet};
use async_graphql::subscription::{
    collect_subscription_fields, message_response, missing_field_response, EmptySubscription,
    SubscriptionType,
};
use async_graphql::value::Value;

fn s(x: &str) -> String {
    x.to_string()
}

fn field(name: &str, alias: Option<&str>) -> Field {
    Field {
        alias: alias.map(s),
        name: s(name),
        directives: Vec::new(),
        selection_set: SelectionSet { items: Vec::new() },
        pos: Pos { line: 2, column: 3 },
    }
}

#[test]
fn only_fields_make_streams() {
    let set = SelectionSet {
        items: vec![
            Selection::Field(field("ticks", None)),
            Selection::FragmentSpread(FragmentSpread { fragment_name: s("F"), pos: Pos { line: 1, column: 1 } }),
            Selection::Field(field("news", Some("n"))),
        ],
    };
    let fields = collect_subscription_fields(&set);
    assert_eq!(fields.len(), 2);
    assert_eq!(fields[0].name, "ticks");
    assert_eq!(fields[1].name, "news");
}

#[test]
fn missing_stream_reports_error() {
    let r = missing_field_response(&field("nope", Some("alias")), &s("Subscription"));
    assert_eq!(r.data, Value::Null);
    assert_eq!(r.errors.len(), 1);
    assert_eq!(r.errors[0].message, "Cannot query field \"alias\" on type \"Subscription\".");
    assert_eq!(r.errors[0].path, vec![PathSegment::Field(s("alias"))]);
    assert_eq!(r.errors[0].locations, vec![Pos { line: 2, column: 3 }]);
}

#[test]
fn message_responses() {
    let pending = vec![ServerError::new(s("late"), None)];
    let r = message_response(s("ticks"), Ok(Some(Value::Number(3))), pending);
    assert_eq!(r.data, Value::Object(vec![(s("ticks"), Value::Number(3))]));
    assert_eq!(r.errors.len(), 1);
    let r = message_response(s("ticks"), Ok(None), Vec::new());
    assert_eq!(r.data, Value::Object(vec![(s("ticks"), Value::Null)]));
    let r = message_response(s("ticks"), Err(ServerError::new(s("e"), None)), vec![ServerError::new(s("late"), None)]);
    assert_eq!(r.data, Value::Null);
    assert_eq!(r.errors.iter().map(|e| e.message.clone()).collect::<Vec<_>>(), vec![s("e"), s("late")]);
}

#[test]
fn qualified_subscription_name() {
    assert_eq!(EmptySubscription::graphql_type_name(), "EmptySubscription");
    assert_eq!(EmptySubscription::qualified_type_name(), "EmptySubscription!");
    assert!(EmptySubscription::is_empty());
}

#[test]
fn batches_keep_order() {
    let q = |x: &str| Request { query: s(x), operation_name: None };
    let (reqs, single) = BatchRequest::Batch(vec![q("a"), q("b")]).into_requests();
    assert!(!single);
    assert_eq!(reqs, vec![q("a"), q("b")]);
    let (reqs, single) = BatchRequest::Single(q("c")).into_requests();
    assert!(single);
    assert_eq!(reqs.len(), 1);
    let r = batch_response(true, vec![Response::new(Value::Number(1))]);
    assert_eq!(r, BatchResponse::Single(Response::new(Value::Number(1))));
    let r = batch_response(false, vec![Response::new(Value::Null), Response::new(Value::Number(2))]);
    assert_eq!(r, BatchResponse::Batch(vec![Response::new(Value::Null), Response::new(Value::Number(2))]));
}

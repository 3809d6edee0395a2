use async_graphql::error::{PathSegment, Pos, ResolverError, ServerError};
use async_graphql::list::{extension_item_result, list_item_result, list_value};
use async_graphql::object::{field_error, find_entity_params, simple_field_result};
use async_graphql::query::Context;
use async_graphql::value::Value;

fn s(x: &str) -> String {
    x.to_string()
}

fn ctx() -> Context {
    Context { path: Some(vec![PathSegment::Field(s("items"))]), pos: Pos { line: 3, column: 5 } }
}

#[test]
fn list_items_get_index_paths() {
    let c = ctx().with_index(2);
    assert_eq!(c.path, Some(vec![PathSegment::Field(s("items")), PathSegment::Index(2)]));
    let r = list_item_result(&c, Err(ServerError::new(s("bad"), None)));
    assert_eq!(r.unwrap_err().path, vec![PathSegment::Field(s("items")), PathSegment::Index(2)]);
    assert_eq!(list_item_result(&c, Ok(Value::Number(1))), Ok(Value::Number(1)));
}

#[test]
fn root_context_keeps_error_path() {
    let root = Context { path: None, pos: Pos { line: 1, column: 1 } };
    let err = ServerError::new(s("bad"), None).with_path(vec![PathSegment::Index(0)]);
    assert_eq!(root.set_error_path(err).path, vec![PathSegment::Index(0)]);
    let f = root.with_field(&s("a"), Pos { line: 2, column: 2 });
    assert_eq!(f.path, Some(vec![PathSegment::Field(s("a"))]));
}

#[test]
fn list_value_collects_in_order() {
    assert_eq!(
        list_value(vec![Ok(Value::Number(1)), Ok(Value::Null)]),
        Ok(Value::List(vec![Value::Number(1), Value::Null]))
    );
    assert_eq!(list_value(Vec::new()), Ok(Value::List(Vec::new())));
    let r = list_value(vec![
        Ok(Value::Number(1)),
        Err(ServerError::new(s("one"), None)),
        Err(ServerError::new(s("two"), None)),
    ]);
    assert_eq!(r.unwrap_err().message, "one");
}

#[test]
fn extension_results() {
    assert_eq!(extension_item_result(Ok(Some(Value::Number(4)))), Ok(Value::Number(4)));
    assert_eq!(
        extension_item_result(Err(ServerError::new(s("x"), None))),
        Err(ServerError::new(s("x"), None))
    );
}

#[test]
fn resolver_errors_get_position_and_path() {
    let e = field_error(&ctx(), ResolverError { message: s("nope") });
    assert_eq!(e.message, "nope");
    assert_eq!(e.locations, vec![Pos { line: 3, column: 5 }]);
    assert_eq!(e.path, vec![PathSegment::Field(s("items"))]);
    assert_eq!(simple_field_result(&ctx(), Ok(Value::Boolean(true))), Ok(Some(Value::Boolean(true))));
    let r = simple_field_result(&ctx(), Err(ServerError::new(s("z"), None)));
    assert_eq!(r.unwrap_err().path, vec![PathSegment::Field(s("items"))]);
}

#[test]
fn entity_params() {
    let c = ctx();
    assert_eq!(find_entity_params(&c, &Value::Number(1)), Ok(None));
    let params = Value::Object(vec![(s("id"), Value::Number(1)), (s("__typename"), Value::String(s("User")))]);
    let r = find_entity_params(&c, &params).unwrap().unwrap();
    assert_eq!(r.1, "User");
    assert_eq!(r.0.len(), 2);
    let bad = Value::Object(vec![(s("__typename"), Value::Number(1))]);
    let e = find_entity_params(&c, &bad).unwrap_err();
    assert_eq!(e.message, "\"__typename\" must be an existing string.");
    assert_eq!(e.locations, vec![Pos { line: 3, column: 5 }]);
    let missing = Value::Object(vec![(s("id"), Value::Number(1))]);
    assert!(find_entity_params(&c, &missing).is_err());
}

use async_graphql::merge::{create_value_object, insert_value};
use async_graphql::value::Value;

fn s(x: &str) -> String {
    x.to_string()
}

fn obj(entries: Vec<(&str, Value)>) -> Value {
    Value::Object(entries.into_iter().map(|(k, v)| (s(k), v)).collect())
}

#[test]
fn distinct_fields_are_kept_in_order() {
    let v = create_value_object(vec![
        (s("b"), Value::Number(1)),
        (s("a"), Value::String(s("x"))),
    ]);
    assert_eq!(v, obj(vec![("b", Value::Number(1)), ("a", Value::String(s("x")))]));
}

#[test]
fn empty_fields_give_empty_object() {
    assert_eq!(create_value_object(Vec::new()), Value::Object(Vec::new()));
}

#[test]
fn repeated_scalar_field_keeps_first_value() {
    let v = create_value_object(vec![
        (s("a"), Value::Number(1)),
        (s("b"), Value::Boolean(true)),
        (s("a"), Value::Number(2)),
    ]);
    assert_eq!(v, obj(vec![("a", Value::Number(1)), ("b", Value::Boolean(true))]));
}

#[test]
fn repeated_object_fields_are_merged_deeply() {
    let first = obj(vec![("x", Value::Number(1)), ("inner", obj(vec![("p", Value::Null)]))]);
    let second = obj(vec![("y", Value::Number(2)), ("inner", obj(vec![("q", Value::Boolean(false))])), ("x", Value::Number(9))]);
    let v = create_value_object(vec![(s("o"), first), (s("o"), second)]);
    assert_eq!(
        v,
        obj(vec![(
            "o",
            obj(vec![
                ("x", Value::Number(1)),
                ("inner", obj(vec![("p", Value::Null), ("q", Value::Boolean(false))])),
                ("y", Value::Number(2)),
            ])
        )])
    );
}

#[test]
fn repeated_list_fields_merge_objects_by_position() {
    let first = Value::List(vec![obj(vec![("a", Value::Number(1))]), Value::Number(5)]);
    let second = Value::List(vec![
        obj(vec![("b", Value::Number(2))]),
        obj(vec![("c", Value::Number(3))]),
        obj(vec![("d", Value::Number(4))]),
    ]);
    let v = create_value_object(vec![(s("l"), first), (s("l"), second)]);
    assert_eq!(
        v,
        obj(vec![(
            "l",
            Value::List(vec![obj(vec![("a", Value::Number(1)), ("b", Value::Number(2))]), Value::Number(5)])
        )])
    );
}

#[test]
fn object_does_not_merge_into_scalar_or_list() {
    let v = create_value_object(vec![
        (s("a"), Value::Number(1)),
        (s("a"), obj(vec![("z", Value::Null)])),
        (s("l"), Value::List(Vec::new())),
        (s("l"), obj(vec![("z", Value::Null)])),
    ]);
    assert_eq!(v, obj(vec![("a", Value::Number(1)), ("l", Value::List(Vec::new()))]));
}

#[test]
fn insert_value_appends_new_key() {
    let mut target = vec![(s("a"), Value::Number(1))];
    insert_value(&mut target, s("b"), Value::Number(2));
    assert_eq!(target, vec![(s("a"), Value::Number(1)), (s("b"), Value::Number(2))]);
}

#[test]
fn same_field_selected_twice_equals_once() {
    let make = || {
        obj(vec![
            ("x", Value::Number(1)),
            ("l", Value::List(vec![obj(vec![("p", Value::Null)]), Value::Boolean(true)])),
            ("inner", obj(vec![("q", Value::String(s("z")))])),
        ])
    };
    let twice = create_value_object(vec![(s("o"), make()), (s("o"), make())]);
    let once = create_value_object(vec![(s("o"), make())]);
    assert_eq!(twice, once);
    assert_eq!(once, obj(vec![("o", make())]));
}
